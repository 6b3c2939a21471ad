//! Icon themes: which theme is active, in what order themes are searched, and
//! which of the files found for an icon is taken.

use vstd::prelude::*;

use crate::icons::desktop_entries;
use crate::icons::desktop_entries::{deduplicate, listed_directories};
use crate::path;
use crate::path::{directory_name, extension_of, join_path, stem_of};
use crate::table::Table;
use crate::text;
use crate::text::{
    after_prefix, characters, contains_string, from_characters, is_before, reads, split, split_lines,
    starts_with, strip_suffixes, trim,
};

verus! {

/// The size, in pixels, at which icons are shown.
pub const TARGET_SIZE: u32 = 128;

// ---------------------------------------------------------------------
// The active theme
// ---------------------------------------------------------------------

/// The theme that the lines of a KDE configuration name. `inside` tells
/// whether the lines stand in the section `[Icons]`.
pub open spec fn theme_in(list: Seq<Seq<char>>, inside: bool) -> Option<Seq<char>>
    decreases list.len(),
{
    if list.len() == 0 {
        None
    } else {
        let line = text::trimmed(list[0]);
        if text::starts(line, seq!['[']) {
            theme_in(list.skip(1), line == "[Icons]"@)
        } else if inside && text::starts(line, "Theme="@) && text::trimmed(
            line.skip("Theme="@.len() as int),
        ).len() > 0 {
            Some(text::trimmed(line.skip("Theme="@.len() as int)))
        } else {
            theme_in(list.skip(1), inside)
        }
    }
}

/// Reads the name of the icon theme from a KDE configuration.
pub fn parse_kde_theme(contents: &str) -> (res: Option<String>)
    ensures
        text::text_of(res) == theme_in(text::lines(contents@), false),
{
    let chars = characters(contents);
    let list = split_lines(chars.as_slice());
    let bracket: [char; 1] = ['['];
    assert(bracket@ =~= seq!['[']);
    let ghost all = text::lines(contents@);
    let mut inside = false;
    let mut i: usize = 0;
    assert(all.skip(0) =~= all);
    while i < list.len()
        invariant
            i <= list@.len(),
            all == text::pieces(list@),
            all == text::lines(contents@),
            bracket@ == seq!['['],
            theme_in(all, false) == theme_in(all.skip(i as int), inside),
        decreases list@.len() - i,
    {
        let line = trim(list[i].as_slice());
        assert(all.skip(i as int)[0] == list@[i as int]@);
        assert(all.skip(i as int).skip(1) =~= all.skip(i + 1));
        i += 1;
        if starts_with(line, bracket.as_slice()) {
            inside = reads(line, "[Icons]");
        } else if inside {
            if let Some(value) = after_prefix(line, "Theme=") {
                let value = trim(value);
                if value.len() > 0 {
                    return Some(from_characters(value));
                }
            }
        }
    }
    None
}

/// Whether a line begins a section.
pub open spec fn is_heading(line: Seq<char>) -> bool {
    text::starts(text::trimmed(line), seq!['['])
}

/// Whether a line stands in the section `[Icons]`: the last heading before it
/// is that one or, without a heading before it, `inside` says so.
pub open spec fn is_among_icons(list: Seq<Seq<char>>, inside: bool, i: int) -> bool {
    ||| inside && forall|h: int| 0 <= h < i ==> !is_heading(#[trigger] list[h])
    ||| exists|h: int|
        {
            &&& 0 <= h < i
            &&& text::trimmed(#[trigger] list[h]) == "[Icons]"@
            &&& forall|k: int| h < k < i ==> !is_heading(#[trigger] list[k])
        }
}

/// Whether a line names a theme: it stands in the section `[Icons]` and gives
/// a value that is not blank behind `Theme=`.
pub open spec fn names_theme(
    list: Seq<Seq<char>>,
    inside: bool,
    i: int,
    theme: Seq<char>,
) -> bool {
    let line = text::trimmed(list[i]);
    &&& 0 <= i < list.len()
    &&& is_among_icons(list, inside, i)
    &&& text::starts(line, "Theme="@)
    &&& theme == text::trimmed(line.skip("Theme="@.len() as int))
    &&& theme.len() > 0
}

proof fn lemma_among_icons(list: Seq<Seq<char>>, inside: bool, i: int)
    requires
        0 < i < list.len(),
    ensures
        is_among_icons(list, inside, i) <==> is_among_icons(
            list.skip(1),
            if is_heading(list[0]) {
                text::trimmed(list[0]) == "[Icons]"@
            } else {
                inside
            },
            i - 1,
        ),
{
    let rest = list.skip(1);
    let next = if is_heading(list[0]) {
        text::trimmed(list[0]) == "[Icons]"@
    } else {
        inside
    };
    reveal_strlit("[Icons]");
    assert(text::starts("[Icons]"@, seq!['['])) by {
        assert("[Icons]"@.take(1) =~= seq!['[']);
    }
    assert(forall|k: int| 0 <= k < rest.len() ==> rest[k] == list[k + 1]);
    if is_among_icons(list, inside, i) {
        if inside && forall|h: int| 0 <= h < i ==> !is_heading(#[trigger] list[h]) {
            assert(!is_heading(list[0]));
            assert forall|h: int| 0 <= h < i - 1 implies !is_heading(#[trigger] rest[h]) by {
                assert(!is_heading(list[h + 1]));
            }
        } else {
            let h = choose|h: int|
                {
                    &&& 0 <= h < i
                    &&& text::trimmed(#[trigger] list[h]) == "[Icons]"@
                    &&& forall|k: int| h < k < i ==> !is_heading(#[trigger] list[k])
                };
            assert forall|k: int| h - 1 < k < i - 1 && 0 <= k implies !is_heading(
                #[trigger] rest[k],
            ) by {
                assert(!is_heading(list[k + 1]));
            }
            if h > 0 {
                assert(text::trimmed(rest[h - 1]) == "[Icons]"@);
            }
        }
    }
    if is_among_icons(rest, next, i - 1) {
        if next && forall|h: int| 0 <= h < i - 1 ==> !is_heading(#[trigger] rest[h]) {
            assert forall|h: int| 0 < h < i implies !is_heading(#[trigger] list[h]) by {
                assert(!is_heading(rest[h - 1]));
            }
            if is_heading(list[0]) {
                assert(text::trimmed(list[0]) == "[Icons]"@);
            }
        } else {
            let h = choose|h: int|
                {
                    &&& 0 <= h < i - 1
                    &&& text::trimmed(#[trigger] rest[h]) == "[Icons]"@
                    &&& forall|k: int| h < k < i - 1 ==> !is_heading(#[trigger] rest[k])
                };
            assert(text::trimmed(list[h + 1]) == "[Icons]"@);
            assert forall|k: int| h + 1 < k < i implies !is_heading(#[trigger] list[k]) by {
                assert(!is_heading(rest[k - 1]));
            }
        }
    }
}

/// The theme of a configuration is the first that a line in the section
/// `[Icons]` names, and there is one wherever such a line is.
pub proof fn first_named_theme_counts(
    list: Seq<Seq<char>>,
    inside: bool,
    i: int,
    theme: Seq<char>,
)
    requires
        names_theme(list, inside, i, theme),
        forall|j: int, other: Seq<char>| 0 <= j < i ==> !names_theme(list, inside, j, other),
    ensures
        theme_in(list, inside) == Some(theme),
    decreases list.len(),
{
    let line = text::trimmed(list[0]);
    let rest = list.skip(1);
    let next = if is_heading(list[0]) {
        line == "[Icons]"@
    } else {
        inside
    };
    reveal_strlit("Theme=");
    if i == 0 {
        assert(!is_heading(list[0])) by {
            assert(line.take(6)[0] == 'T');
            if is_heading(list[0]) {
                assert(line.take(1)[0] == '[');
                assert(line[0] == 'T');
            }
        }
    } else {
        lemma_among_icons(list, inside, i);
        assert(rest[i - 1] == list[i]);
        assert(names_theme(rest, next, i - 1, theme));
        assert forall|j: int, other: Seq<char>| 0 <= j < i - 1 implies !names_theme(
            rest,
            next,
            j,
            other,
        ) by {
            lemma_among_icons(list, inside, j + 1);
            assert(rest[j] == list[j + 1]);
            assert(!names_theme(list, inside, j + 1, other));
        }
        first_named_theme_counts(rest, next, i - 1, theme);
        if !is_heading(list[0]) && inside && text::starts(line, "Theme="@) && text::trimmed(
            line.skip("Theme="@.len() as int),
        ).len() > 0 {
            assert(names_theme(
                list,
                inside,
                0,
                text::trimmed(line.skip("Theme="@.len() as int)),
            ));
        }
    }
}

/// Without a line that names one there is no theme.
pub proof fn unnamed_theme_is_missing(list: Seq<Seq<char>>, inside: bool)
    requires
        forall|j: int, other: Seq<char>| !names_theme(list, inside, j, other),
    ensures
        theme_in(list, inside) is None,
    decreases list.len(),
{
    if list.len() > 0 {
        let line = text::trimmed(list[0]);
        let rest = list.skip(1);
        let next = if is_heading(list[0]) {
            line == "[Icons]"@
        } else {
            inside
        };
        assert forall|j: int, other: Seq<char>| !names_theme(rest, next, j, other) by {
            if 0 <= j < rest.len() {
                lemma_among_icons(list, inside, j + 1);
                assert(rest[j] == list[j + 1]);
                assert(!names_theme(list, inside, j + 1, other));
            }
        }
        unnamed_theme_is_missing(rest, next);
        if !is_heading(list[0]) && inside && text::starts(line, "Theme="@) && text::trimmed(
            line.skip("Theme="@.len() as int),
        ).len() > 0 {
            assert(names_theme(
                list,
                inside,
                0,
                text::trimmed(line.skip("Theme="@.len() as int)),
            ));
        }
    }
}

/// The theme that the first file naming one names. Files that could not be
/// read are left out.
pub open spec fn first_theme(files: Seq<Option<String>>) -> Option<Seq<char>>
    decreases files.len(),
{
    if files.len() == 0 {
        None
    } else {
        match files[0] {
            Some(contents) => match theme_in(text::lines(contents@), false) {
                Some(theme) => Some(theme),
                None => first_theme(files.skip(1)),
            },
            None => first_theme(files.skip(1)),
        }
    }
}

/// The first file that names a theme decides, wherever there is one.
pub proof fn first_file_decides_the_theme(files: Seq<Option<String>>, i: int, contents: String)
    requires
        0 <= i < files.len(),
        files[i] == Some(contents),
        theme_in(text::lines(contents@), false) is Some,
        forall|j: int|
            0 <= j < i ==> ((#[trigger] files[j]) matches Some(earlier) ==> theme_in(
                text::lines(earlier@),
                false,
            ) is None),
    ensures
        first_theme(files) == theme_in(text::lines(contents@), false),
    decreases i,
{
    if i > 0 {
        let rest = files.skip(1);
        let first = files[0];
        assert(forall|j: int| 0 <= j < rest.len() ==> rest[j] == files[j + 1]);
        assert forall|j: int| 0 <= j < i - 1 implies ((#[trigger] rest[j]) matches Some(earlier)
            ==> theme_in(text::lines(earlier@), false) is None) by {
            assert(rest[j] == files[j + 1]);
        }
        first_file_decides_the_theme(rest, i - 1, contents);
    }
}

/// The active icon theme, from the contents of [`config_files`].
pub fn active_theme(files: &[Option<String>]) -> (res: String)
    ensures
        res@ == match first_theme(files@) {
            Some(theme) => theme,
            None => "breeze"@,
        },
{
    let mut i: usize = 0;
    assert(files@.skip(0) =~= files@);
    while i < files.len()
        invariant
            i <= files@.len(),
            first_theme(files@) == first_theme(files@.skip(i as int)),
        decreases files@.len() - i,
    {
        assert(files@.skip(i as int)[0] == files@[i as int]);
        assert(files@.skip(i as int).skip(1) =~= files@.skip(i + 1));
        if let Some(contents) = &files[i] {
            if let Some(theme) = parse_kde_theme(contents.as_str()) {
                return theme;
            }
        }
        i += 1;
    }
    "breeze".to_owned()
}

/// The files that may name the active theme, from the values of
/// `XDG_CONFIG_HOME` and `HOME`.
pub fn config_files(config_home: Option<&str>, home: Option<&str>) -> (res: Vec<String>)
    ensures
        text::texts(res@) == match config_home {
            Some(value) => seq![path::joined(value@, "kdeglobals"@)],
            None => Seq::empty(),
        } + match home {
            Some(value) => seq![path::joined(value@, ".config/kdeglobals"@)],
            None => Seq::empty(),
        },
{
    let mut files: Vec<String> = Vec::new();
    if let Some(value) = config_home {
        files.push(join_path(value, "kdeglobals"));
    }
    if let Some(value) = home {
        files.push(join_path(value, ".config/kdeglobals"));
    }
    files
}

/// The directories that hold icon themes, with repetitions.
pub open spec fn icon_places(
    home: Option<Seq<char>>,
    data_home: Option<Seq<char>>,
    data_dirs: Option<Seq<char>>,
) -> Seq<Seq<char>> {
    let own = match home {
        Some(value) => seq![
            path::joined(value, ".icons"@),
            path::joined(value, ".local/share/icons"@),
            path::joined(value, ".local/share/flatpak/exports/share/icons"@),
        ],
        None => Seq::empty(),
    };
    let data = match data_home {
        Some(value) => seq![path::joined(value, "icons"@)],
        None => Seq::empty(),
    };
    own + data + desktop_entries::each_joined(
        desktop_entries::data_directories(data_dirs),
        "icons"@,
    ) + seq![
        "/usr/local/share/icons"@,
        "/usr/share/icons"@,
        "/var/lib/flatpak/exports/share/icons"@,
    ]
}

/// The directories that hold icon themes, from the values of `HOME`,
/// `XDG_DATA_HOME` and `XDG_DATA_DIRS`.
pub fn icon_roots(home: Option<&str>, data_home: Option<&str>, data_dirs: Option<&str>) -> (res:
    Vec<String>)
    ensures
        text::texts(res@) == desktop_entries::distinct_paths(
            icon_places(text::str_of(home), text::str_of(data_home), text::str_of(data_dirs)),
        ),
{
    let ghost own = match text::str_of(home) {
        Some(value) => seq![
            path::joined(value, ".icons"@),
            path::joined(value, ".local/share/icons"@),
            path::joined(value, ".local/share/flatpak/exports/share/icons"@),
        ],
        None => Seq::empty(),
    };
    let ghost data = match text::str_of(data_home) {
        Some(value) => seq![path::joined(value, "icons"@)],
        None => Seq::empty(),
    };
    let mut roots: Vec<String> = Vec::new();
    if let Some(value) = home {
        roots.push(join_path(value, ".icons"));
        roots.push(join_path(value, ".local/share/icons"));
        roots.push(join_path(value, ".local/share/flatpak/exports/share/icons"));
    }
    assert(text::texts(roots@) =~= own);
    if let Some(value) = data_home {
        roots.push(join_path(value, "icons"));
    }
    assert(text::texts(roots@) =~= own + data);
    let mut listed = listed_directories(data_dirs, "icons");
    let ghost middle = text::texts(listed@);
    let ghost head = roots@;
    let ghost tail = listed@;
    roots.append(&mut listed);
    assert(roots@ =~= head + tail);
    assert(text::texts(roots@) =~= own + data + middle);
    roots.push("/usr/local/share/icons".to_owned());
    roots.push("/usr/share/icons".to_owned());
    roots.push("/var/lib/flatpak/exports/share/icons".to_owned());
    assert(text::texts(roots@) =~= own + data + middle + seq![
        "/usr/local/share/icons"@,
        "/usr/share/icons"@,
        "/var/lib/flatpak/exports/share/icons"@,
    ]);
    deduplicate(roots)
}

// ---------------------------------------------------------------------
// Inheritance
// ---------------------------------------------------------------------

/// The trimmed parts that are not empty.
pub open spec fn filled(list: Seq<Seq<char>>) -> Seq<Seq<char>>
    decreases list.len(),
{
    if list.len() == 0 {
        list
    } else {
        let rest = filled(list.drop_last());
        let value = text::trimmed(list.last());
        if value.len() > 0 {
            rest.push(value)
        } else {
            rest
        }
    }
}

/// A list of themes holds exactly the parts that are not blank, trimmed.
pub proof fn blank_parts_are_left_out(list: Seq<Seq<char>>, value: Seq<char>)
    ensures
        filled(list).contains(value) <==> value.len() > 0 && exists|i: int|
            0 <= i < list.len() && text::trimmed(#[trigger] list[i]) == value,
    decreases list.len(),
{
    if list.len() > 0 {
        let before = list.drop_last();
        let rest = filled(before);
        let all = filled(list);
        let last = list.len() - 1;
        blank_parts_are_left_out(before, value);
        assert(list[last] == list.last());
        assert(forall|k: int| 0 <= k < last ==> before[k] == list[k]);
        if rest.contains(value) {
            let k = choose|k: int| 0 <= k < rest.len() && rest[k] == value;
            assert(all[k] == value);
            let i = choose|i: int|
                0 <= i < before.len() && text::trimmed(#[trigger] before[i]) == value;
            assert(text::trimmed(list[i]) == value);
        }
        if text::trimmed(list.last()).len() > 0 {
            assert(all[rest.len() as int] == text::trimmed(list.last()));
        }
        if all.contains(value) {
            let k = choose|k: int| 0 <= k < all.len() && all[k] == value;
            if k < rest.len() {
                assert(rest[k] == value);
            } else {
                assert(text::trimmed(list[last]) == value);
            }
        }
        if value.len() > 0 && exists|i: int|
            0 <= i < list.len() && text::trimmed(#[trigger] list[i]) == value {
            let i = choose|i: int|
                0 <= i < list.len() && text::trimmed(#[trigger] list[i]) == value;
            if i < last {
                assert(text::trimmed(before[i]) == value);
                assert(rest.contains(value));
            }
        }
    }
}

/// The themes that the first `Inherits=` line names.
pub open spec fn inherited(list: Seq<Seq<char>>) -> Option<Seq<Seq<char>>>
    decreases list.len(),
{
    if list.len() == 0 {
        None
    } else {
        let line = text::trimmed(list[0]);
        if text::starts(line, "Inherits="@) {
            Some(filled(text::split_at_char(line.skip("Inherits="@.len() as int), ',')))
        } else {
            inherited(list.skip(1))
        }
    }
}

/// The first line that begins with `Inherits=` says what a theme inherits
/// from, and without such a line nothing does.
pub proof fn first_inherits_line_counts(list: Seq<Seq<char>>, i: int)
    requires
        0 <= i <= list.len(),
        forall|j: int|
            0 <= j < i ==> !text::starts(text::trimmed(#[trigger] list[j]), "Inherits="@),
    ensures
        i < list.len() && text::starts(text::trimmed(list[i]), "Inherits="@) ==> inherited(list)
            == Some(filled(text::split_at_char(text::trimmed(list[i]).skip(9), ','))),
        i == list.len() ==> inherited(list) is None,
    decreases i,
{
    reveal_strlit("Inherits=");
    assert("Inherits="@.len() == 9);
    if i > 0 {
        let rest = list.skip(1);
        assert(!text::starts(text::trimmed(list[0]), "Inherits="@));
        assert forall|j: int| 0 <= j < i - 1 implies !text::starts(
            text::trimmed(#[trigger] rest[j]),
            "Inherits="@,
        ) by {
            assert(rest[j] == list[j + 1]);
        }
        if i < list.len() {
            assert(rest[i - 1] == list[i]);
        }
        first_inherits_line_counts(rest, i - 1);
    }
}

fn filled_parts(value: &[char]) -> (res: Vec<String>)
    ensures
        text::texts(res@) == filled(text::split_at_char(value@, ',')),
{
    let list = split(value, ',');
    let ghost all = text::split_at_char(value@, ',');
    let mut out: Vec<String> = Vec::new();
    let mut i: usize = 0;
    assert(text::texts(out@) =~= filled(all.take(0)));
    while i < list.len()
        invariant
            i <= list@.len(),
            all == text::pieces(list@),
            text::texts(out@) == filled(all.take(i as int)),
        decreases list@.len() - i,
    {
        let ghost before = text::texts(out@);
        assert(all[i as int] == list@[i as int]@);
        assert(all.take(i + 1).drop_last() =~= all.take(i as int));
        let part = trim(list[i].as_slice());
        if part.len() > 0 {
            let name = from_characters(part);
            out.push(name);
            assert(text::texts(out@) =~= before.push(name@));
        }
        i += 1;
    }
    assert(all.take(i as int) =~= all);
    out
}

/// What an optional list of strings reads.
pub open spec fn texts_of(value: Option<Vec<String>>) -> Option<Seq<Seq<char>>> {
    match value {
        Some(list) => Some(text::texts(list@)),
        None => None,
    }
}

/// Reads which themes a theme inherits from, from its file `index.theme`.
pub fn parse_inherits(contents: &str) -> (res: Option<Vec<String>>)
    ensures
        texts_of(res) == inherited(text::lines(contents@)),
{
    let chars = characters(contents);
    let list = split_lines(chars.as_slice());
    let ghost all = text::lines(contents@);
    let mut i: usize = 0;
    assert(all.skip(0) =~= all);
    while i < list.len()
        invariant
            i <= list@.len(),
            all == text::pieces(list@),
            all == text::lines(contents@),
            inherited(all) == inherited(all.skip(i as int)),
        decreases list@.len() - i,
    {
        let line = trim(list[i].as_slice());
        assert(all.skip(i as int)[0] == list@[i as int]@);
        assert(all.skip(i as int).skip(1) =~= all.skip(i + 1));
        if let Some(value) = after_prefix(line, "Inherits=") {
            return Some(filled_parts(value));
        }
        i += 1;
    }
    None
}

/// What the first of the files `index.theme` with such a line names. Where a
/// file is missing, it is `None`.
pub open spec fn first_inherited(files: Seq<Option<String>>) -> Option<Seq<Seq<char>>>
    decreases files.len(),
{
    if files.len() == 0 {
        None
    } else {
        let named = match files[0] {
            Some(contents) => inherited(text::lines(contents@)),
            None => None,
        };
        if named is Some {
            named
        } else {
            first_inherited(files.skip(1))
        }
    }
}

/// The first file that says what a theme inherits from counts; files that are
/// missing or say nothing of it are passed over.
pub proof fn first_file_decides_the_parents(files: Seq<Option<String>>, i: int)
    requires
        0 <= i <= files.len(),
        forall|j: int|
            0 <= j < i ==> ((#[trigger] files[j]) matches Some(earlier) ==> inherited(
                text::lines(earlier@),
            ) is None),
    ensures
        i < files.len() ==> (files[i] matches Some(contents) ==> inherited(
            text::lines(contents@),
        ) is Some ==> first_inherited(files) == inherited(text::lines(contents@))),
        i == files.len() ==> first_inherited(files) is None,
    decreases i,
{
    if i > 0 {
        let rest = files.skip(1);
        let first = files[0];
        assert forall|j: int| 0 <= j < i - 1 implies ((#[trigger] rest[j]) matches Some(earlier)
            ==> inherited(text::lines(earlier@)) is None) by {
            assert(rest[j] == files[j + 1]);
        }
        if i < files.len() {
            assert(rest[i - 1] == files[i]);
        }
        first_file_decides_the_parents(rest, i - 1);
    }
}

/// Reads which themes a theme inherits from, from its files `index.theme` in
/// the directories that are searched: the first one that says it counts.
pub fn first_inherits(files: &[Option<String>]) -> (res: Option<Vec<String>>)
    ensures
        texts_of(res) == first_inherited(files@),
{
    let ghost all = files@;
    let mut i: usize = 0;
    assert(all.skip(0) =~= all);
    while i < files.len()
        invariant
            i <= files@.len(),
            all == files@,
            first_inherited(all) == first_inherited(all.skip(i as int)),
        decreases files@.len() - i,
    {
        assert(all.skip(i as int)[0] == all[i as int]);
        assert(all.skip(i as int).skip(1) =~= all.skip(i + 1));
        if let Some(contents) = &files[i] {
            let parents = parse_inherits(contents.as_str());
            if parents.is_some() {
                return parents;
            }
        }
        i += 1;
    }
    None
}

/// What the themes inherit from, by name. A theme without a list has none.
pub open spec fn parents_of(inherits: Map<Seq<char>, Vec<String>>, theme: Seq<char>) -> Seq<
    Seq<char>,
> {
    if inherits.contains_key(theme) {
        text::texts(inherits[theme]@)
    } else {
        Seq::empty()
    }
}

/// A theme has the parents that its list names, and none without a list.
pub proof fn parents_are_those_listed(
    inherits: Map<Seq<char>, Vec<String>>,
    theme: Seq<char>,
    list: Vec<String>,
    i: int,
)
    requires
        0 <= i < list@.len(),
    ensures
        parents_of(inherits.insert(theme, list), theme).contains(list@[i]@),
        parents_of(inherits.insert(theme, list), theme).len() == list@.len(),
        parents_of(inherits.remove(theme), theme).len() == 0,
{
    let parents = parents_of(inherits.insert(theme, list), theme);
    assert(parents[i] == list@[i]@);
}

/// The themes reached from those in `todo`, each behind the themes that
/// `order` holds already, and each once: a theme, then all that its first
/// parent leads to, then all that its second leads to, and so on.
pub open spec fn reached(
    todo: Seq<Seq<char>>,
    inherits: Map<Seq<char>, Vec<String>>,
    order: Seq<Seq<char>>,
) -> Seq<Seq<char>>
    decreases inherits.dom().difference(order.to_set()).len(), todo.len(),
    when inherits.dom().finite()
{
    if todo.len() == 0 {
        order
    } else if todo[0].len() == 0 || order.contains(todo[0]) {
        reached(todo.skip(1), inherits, order)
    } else {
        proof {
            lemma_fewer_left(inherits.dom(), order, todo[0]);
        }
        reached(
            parents_of(inherits, todo[0]) + todo.skip(1),
            inherits,
            order.push(todo[0]),
        )
    }
}

/// Visiting a theme with a list of parents leaves fewer such themes to visit.
pub proof fn lemma_fewer_left(keys: Set<Seq<char>>, order: Seq<Seq<char>>, theme: Seq<char>)
    requires
        keys.finite(),
        !order.contains(theme),
    ensures
        keys.contains(theme) ==> keys.difference(order.push(theme).to_set()).len()
            < keys.difference(order.to_set()).len(),
        !keys.contains(theme) ==> keys.difference(order.push(theme).to_set()) == keys.difference(
            order.to_set(),
        ),
{
    let left = keys.difference(order.to_set());
    let fewer = keys.difference(order.push(theme).to_set());
    assert forall|x: Seq<char>| #[trigger] order.push(theme).to_set().contains(x) <==> (
    order.to_set().contains(x) || x == theme) by {
        if order.to_set().contains(x) {
            let i = choose|i: int| 0 <= i < order.len() && order[i] == x;
            assert(order.push(theme)[i] == x);
        }
        assert(order.push(theme)[order.len() as int] == theme);
        if order.push(theme).to_set().contains(x) && x != theme {
            let i = choose|i: int| 0 <= i < order.push(theme).len() && order.push(theme)[i] == x;
            assert(order[i] == x);
        }
    }
    assert(fewer =~= left.remove(theme));
}

/// The themes to search when `theme` is the active one: those reached from
/// it, then those reached from `breeze` and from `hicolor`.
pub open spec fn search_order(theme: Seq<char>, inherits: Map<Seq<char>, Vec<String>>) -> Seq<
    Seq<char>,
> {
    without_repeats(
        reached(seq![theme], inherits, Seq::empty()) + reached(
            seq!["breeze"@],
            inherits,
            Seq::empty(),
        ) + reached(seq!["hicolor"@], inherits, Seq::empty()),
    )
}

/// The list without the items that equal the one before them.
pub open spec fn without_repeats(list: Seq<Seq<char>>) -> Seq<Seq<char>>
    decreases list.len(),
{
    if list.len() <= 1 {
        list
    } else if list.last() == list.drop_last().last() {
        without_repeats(list.drop_last())
    } else {
        without_repeats(list.drop_last()).push(list.last())
    }
}

fn collect_themes(theme: &str, inherits: &Table<String, Vec<String>>) -> (res: Vec<String>)
    ensures
        text::texts(res@) == reached(seq![theme@], inherits@, Seq::empty()),
{
    let ghost all = inherits@;
    proof {
        assert(all.dom().finite()) by {
            inherits.lemma_finite();
        }
    }
    let mut todo: Vec<String> = Vec::new();
    todo.push(theme.to_owned());
    let mut order: Vec<String> = Vec::new();
    assert(text::texts(todo@) =~= seq![theme@]);
    assert(text::texts(order@) =~= Seq::<Seq<char>>::empty());
    while todo.len() > 0
        invariant
            all == inherits@,
            all.dom().finite(),
            reached(text::texts(todo@), all, text::texts(order@)) == reached(
                seq![theme@],
                all,
                Seq::empty(),
            ),
        decreases all.dom().difference(text::texts(order@).to_set()).len(), todo@.len(),
    {
        let ghost before = text::texts(todo@);
        let ghost seen = text::texts(order@);
        let name = todo.remove(0);
        assert(before[0] == name@);
        assert(text::texts(todo@) =~= before.skip(1));
        let chars = characters(name.as_str());
        if chars.len() > 0 && !contains_string(order.as_slice(), name.as_str()) {
            proof {
                lemma_fewer_left(all.dom(), seen, name@);
            }
            if let Some(parents) = inherits.get(&name) {
                let ghost list = text::texts(parents@);
                let mut k: usize = parents.len();
                assert(list.skip(k as int) + before.skip(1) =~= before.skip(1));
                while k > 0
                    invariant
                        k <= parents@.len(),
                        list == text::texts(parents@),
                        text::texts(todo@) == list.skip(k as int) + before.skip(1),
                    decreases k,
                {
                    let ghost earlier = text::texts(todo@);
                    k -= 1;
                    let parent = parents[k].clone();
                    todo.insert(0, parent);
                    assert(text::texts(todo@) =~= seq![parent@] + earlier);
                    assert(list.skip(k as int) =~= seq![list[k as int]] + list.skip(k + 1));
                    assert(text::texts(todo@) =~= list.skip(k as int) + before.skip(1));
                }
                assert(list.skip(0) =~= list);
            } else {
                assert(parents_of(all, name@) + before.skip(1) =~= before.skip(1));
            }
            order.push(name);
            assert(text::texts(order@) =~= seen.push(name@));
        }
    }
    order
}

fn extend(list: &mut Vec<String>, mut more: Vec<String>)
    ensures
        text::texts(final(list)@) == text::texts(old(list)@) + text::texts(more@),
{
    let ghost head = list@;
    let ghost tail = more@;
    list.append(&mut more);
    assert(list@ =~= head + tail);
    assert(text::texts(list@) =~= text::texts(head) + text::texts(tail));
}

/// The themes to search, in order. `inherits` holds what the themes inherit
/// from, as [`first_inherits`] reads it.
pub fn theme_order(theme: &str, inherits: &Table<String, Vec<String>>) -> (res: Vec<String>)
    ensures
        text::texts(res@) == search_order(theme@, inherits@),
{
    let mut list = collect_themes(theme, inherits);
    extend(&mut list, collect_themes("breeze", inherits));
    extend(&mut list, collect_themes("hicolor", inherits));
    let ghost all = text::texts(list@);
    let mut out: Vec<String> = Vec::new();
    let mut i: usize = 0;
    assert(text::texts(out@) =~= without_repeats(all.take(0)));
    while i < list.len()
        invariant
            i <= list@.len(),
            all == text::texts(list@),
            text::texts(out@) == without_repeats(all.take(i as int)),
        decreases list@.len() - i,
    {
        let ghost before = text::texts(out@);
        assert(all.take(i + 1).drop_last() =~= all.take(i as int));
        assert(all[i as int] == list@[i as int]@);
        let repeated = i > 0 && list[i] == list[i - 1];
        assert(i > 0 ==> all.take(i as int).last() == list@[i - 1]@);
        if !repeated {
            let name = list[i].clone();
            out.push(name);
            assert(text::texts(out@) =~= before.push(name@));
        }
        i += 1;
        assert(text::texts(out@) =~= without_repeats(all.take(i as int)));
    }
    assert(all.take(i as int) =~= all);
    out
}

/// The first theme of the order whose parents are not known yet, where there
/// is one.
pub fn next_unread(order: &[String], known: &Table<String, bool>) -> (res: Option<String>)
    ensures
        match res {
            Some(theme) => exists|i: int|
                {
                    &&& 0 <= i < order@.len()
                    &&& theme == #[trigger] order@[i]
                    &&& !known@.contains_key(theme@)
                    &&& forall|j: int|
                        0 <= j < i ==> known@.contains_key((#[trigger] order@[j])@)
                },
            None => forall|j: int|
                0 <= j < order@.len() ==> known@.contains_key((#[trigger] order@[j])@),
        },
{
    let mut i: usize = 0;
    while i < order.len()
        invariant
            i <= order@.len(),
            forall|j: int| 0 <= j < i ==> known@.contains_key((#[trigger] order@[j])@),
        decreases order@.len() - i,
    {
        if !known.contains(&order[i]) {
            let theme = order[i].clone();
            assert(theme == order@[i as int]);
            return Some(theme);
        }
        i += 1;
    }
    None
}

/// No theme is reached twice.
pub proof fn themes_are_reached_once(
    todo: Seq<Seq<char>>,
    inherits: Map<Seq<char>, Vec<String>>,
    order: Seq<Seq<char>>,
)
    requires
        inherits.dom().finite(),
        order.no_duplicates(),
    ensures
        reached(todo, inherits, order).no_duplicates(),
    decreases inherits.dom().difference(order.to_set()).len(), todo.len(),
{
    if todo.len() == 0 {
    } else if todo[0].len() == 0 || order.contains(todo[0]) {
        themes_are_reached_once(todo.skip(1), inherits, order);
    } else {
        lemma_fewer_left(inherits.dom(), order, todo[0]);
        themes_are_reached_once(
            parents_of(inherits, todo[0]) + todo.skip(1),
            inherits,
            order.push(todo[0]),
        );
    }
}

proof fn lemma_order_stays_first(
    todo: Seq<Seq<char>>,
    inherits: Map<Seq<char>, Vec<String>>,
    order: Seq<Seq<char>>,
)
    requires
        inherits.dom().finite(),
    ensures
        order.len() <= reached(todo, inherits, order).len(),
        reached(todo, inherits, order).take(order.len() as int) == order,
    decreases inherits.dom().difference(order.to_set()).len(), todo.len(),
{
    let result = reached(todo, inherits, order);
    if todo.len() == 0 {
        assert(result.take(order.len() as int) =~= order);
    } else if todo[0].len() == 0 || order.contains(todo[0]) {
        lemma_order_stays_first(todo.skip(1), inherits, order);
    } else {
        lemma_fewer_left(inherits.dom(), order, todo[0]);
        lemma_order_stays_first(
            parents_of(inherits, todo[0]) + todo.skip(1),
            inherits,
            order.push(todo[0]),
        );
        let longer = order.push(todo[0]);
        assert(result.take(order.len() as int) =~= longer.take(order.len() as int)) by {
            assert forall|i: int| 0 <= i < order.len() implies result[i] == longer[i] by {
                assert(result.take(longer.len() as int)[i] == longer[i]);
            }
        }
        assert(longer.take(order.len() as int) =~= order);
    }
}

/// The first theme reached from a theme is that theme.
pub proof fn theme_comes_first(theme: Seq<char>, inherits: Map<Seq<char>, Vec<String>>)
    requires
        inherits.dom().finite(),
        theme.len() > 0,
    ensures
        reached(seq![theme], inherits, Seq::empty()).len() > 0,
        reached(seq![theme], inherits, Seq::empty())[0] == theme,
{
    let todo = seq![theme];
    let order: Seq<Seq<char>> = Seq::empty();
    assert(todo[0] == theme);
    assert(!order.contains(theme));
    let rest = parents_of(inherits, theme) + todo.skip(1);
    lemma_order_stays_first(rest, inherits, order.push(theme));
    let result = reached(rest, inherits, order.push(theme));
    assert(result.take(1)[0] == theme);
}

proof fn lemma_repeats_keep_items(list: Seq<Seq<char>>, item: Seq<char>)
    requires
        list.contains(item),
    ensures
        without_repeats(list).contains(item),
    decreases list.len(),
{
    if list.len() > 1 {
        let shorter = list.drop_last();
        let kept = without_repeats(shorter);
        let i = choose|i: int| 0 <= i < list.len() && list[i] == item;
        if i < shorter.len() {
            assert(shorter[i] == item);
            lemma_repeats_keep_items(shorter, item);
        } else if list.last() == shorter.last() {
            assert(shorter[shorter.len() - 1] == item);
            lemma_repeats_keep_items(shorter, item);
        } else {
            assert(kept.push(list.last())[kept.len() as int] == item);
        }
        if kept.contains(item) {
            let j = choose|j: int| 0 <= j < kept.len() && kept[j] == item;
            assert(kept.push(list.last())[j] == item);
        }
    }
}

/// Whatever the active theme is, it is searched, and so are the themes
/// `breeze` and `hicolor`.
pub proof fn fallbacks_are_searched(theme: Seq<char>, inherits: Map<Seq<char>, Vec<String>>)
    requires
        inherits.dom().finite(),
    ensures
        theme.len() > 0 ==> search_order(theme, inherits).contains(theme),
        search_order(theme, inherits).contains("breeze"@),
        search_order(theme, inherits).contains("hicolor"@),
{
    reveal_strlit("breeze");
    reveal_strlit("hicolor");
    let a = reached(seq![theme], inherits, Seq::empty());
    let b = reached(seq!["breeze"@], inherits, Seq::empty());
    let c = reached(seq!["hicolor"@], inherits, Seq::empty());
    let all = a + b + c;
    if theme.len() > 0 {
        theme_comes_first(theme, inherits);
        assert(all[0] == theme);
        lemma_repeats_keep_items(all, theme);
    }
    theme_comes_first("breeze"@, inherits);
    assert(all[a.len() as int] == "breeze"@);
    lemma_repeats_keep_items(all, "breeze"@);
    theme_comes_first("hicolor"@, inherits);
    assert(all[(a.len() + b.len()) as int] == "hicolor"@);
    lemma_repeats_keep_items(all, "hicolor"@);
}

/// All that a list of themes leads to is reached: the themes of the list, and
/// with each theme that is reached now, those that it inherits from; nothing
/// else is.
pub proof fn inherited_themes_are_reached(
    todo: Seq<Seq<char>>,
    inherits: Map<Seq<char>, Vec<String>>,
    order: Seq<Seq<char>>,
    theme: Seq<char>,
)
    requires
        inherits.dom().finite(),
    ensures
        order.contains(theme) ==> reached(todo, inherits, order).contains(theme),
        todo.contains(theme) && theme.len() > 0 ==> reached(todo, inherits, order).contains(theme),
        reached(todo, inherits, order).contains(theme) ==> order.contains(theme) || (theme.len()
            > 0 && (todo.contains(theme) || exists|child: Seq<char>|
            {
                &&& #[trigger] reached(todo, inherits, order).contains(child)
                &&& !order.contains(child)
                &&& parents_of(inherits, child).contains(theme)
            })),
    decreases inherits.dom().difference(order.to_set()).len(), todo.len(),
{
    let all = reached(todo, inherits, order);
    if todo.len() > 0 {
        let first = todo[0];
        let rest = todo.skip(1);
        if todo.contains(theme) && theme != first {
            let k = choose|k: int| 0 <= k < todo.len() && todo[k] == theme;
            assert(rest[k - 1] == theme);
            assert(rest.contains(theme));
        }
        if rest.contains(theme) {
            let k = choose|k: int| 0 <= k < rest.len() && rest[k] == theme;
            assert(todo[k + 1] == theme);
        }
        if first.len() == 0 || order.contains(first) {
            inherited_themes_are_reached(rest, inherits, order, theme);
            inherited_themes_are_reached(rest, inherits, order, first);
        } else {
            lemma_fewer_left(inherits.dom(), order, first);
            let parents = parents_of(inherits, first);
            let next = order.push(first);
            let more = parents + rest;
            inherited_themes_are_reached(more, inherits, next, theme);
            inherited_themes_are_reached(more, inherits, next, first);
            assert(next[order.len() as int] == first);
            assert(next.contains(first));
            if order.contains(theme) {
                let k = choose|k: int| 0 <= k < order.len() && order[k] == theme;
                assert(next[k] == theme);
            }
            if next.contains(theme) {
                let k = choose|k: int| 0 <= k < next.len() && next[k] == theme;
                if k < order.len() {
                    assert(order[k] == theme);
                } else {
                    assert(theme == first);
                    assert(todo.contains(first));
                }
            }
            if rest.contains(theme) {
                let k = choose|k: int| 0 <= k < rest.len() && rest[k] == theme;
                assert(more[parents.len() + k] == theme);
            }
            if all.contains(theme) && !next.contains(theme) {
                if more.contains(theme) {
                    let k = choose|k: int| 0 <= k < more.len() && more[k] == theme;
                    if k < parents.len() {
                        assert(parents[k] == theme);
                        assert(all.contains(first));
                        assert(parents_of(inherits, first).contains(theme));
                    } else {
                        assert(rest[k - parents.len()] == theme);
                    }
                } else {
                    let child = choose|child: Seq<char>|
                        {
                            &&& #[trigger] reached(more, inherits, next).contains(child)
                            &&& !next.contains(child)
                            &&& parents_of(inherits, child).contains(theme)
                        };
                    assert(all.contains(child));
                    assert(!order.contains(child)) by {
                        if order.contains(child) {
                            let k = choose|k: int| 0 <= k < order.len() && order[k] == child;
                            assert(next[k] == child);
                        }
                    }
                }
            }
        }
    }
}

/// Whatever a theme that is reached now inherits from is reached too.
pub proof fn parents_are_reached(
    todo: Seq<Seq<char>>,
    inherits: Map<Seq<char>, Vec<String>>,
    order: Seq<Seq<char>>,
    theme: Seq<char>,
    parent: Seq<char>,
)
    requires
        inherits.dom().finite(),
        reached(todo, inherits, order).contains(theme),
        !order.contains(theme),
        parents_of(inherits, theme).contains(parent),
        parent.len() > 0,
    ensures
        reached(todo, inherits, order).contains(parent),
    decreases inherits.dom().difference(order.to_set()).len(), todo.len(),
{
    if todo.len() > 0 {
        let first = todo[0];
        let rest = todo.skip(1);
        if first.len() == 0 || order.contains(first) {
            parents_are_reached(rest, inherits, order, theme, parent);
        } else {
            lemma_fewer_left(inherits.dom(), order, first);
            let parents = parents_of(inherits, first);
            let next = order.push(first);
            let more = parents + rest;
            if theme == first {
                let k = choose|k: int| 0 <= k < parents.len() && parents[k] == parent;
                assert(more[k] == parent);
                assert(more.contains(parent));
                inherited_themes_are_reached(more, inherits, next, parent);
            } else {
                assert(!next.contains(theme)) by {
                    if next.contains(theme) {
                        let k = choose|k: int| 0 <= k < next.len() && next[k] == theme;
                        assert(k < order.len() ==> order[k] == theme);
                    }
                }
                parents_are_reached(more, inherits, next, theme, parent);
            }
        }
    }
}

proof fn lemma_repeats(list: Seq<Seq<char>>, more: Seq<Seq<char>>)
    ensures
        list.no_duplicates() ==> without_repeats(list) == list,
        list.len() > 0 ==> without_repeats(list).len() > 0,
        forall|item: Seq<char>| #[trigger] without_repeats(list).contains(item) ==> list.contains(item),
        without_repeats(list).len() <= without_repeats(list + more).len(),
        without_repeats(list + more).take(without_repeats(list).len() as int) == without_repeats(
            list,
        ),
    decreases list.len() + more.len(),
{
    let short = without_repeats(list);
    if more.len() > 0 {
        let before = more.drop_last();
        lemma_repeats(list, before);
        let whole = list + more;
        assert(whole.drop_last() =~= list + before);
        let long = without_repeats(whole);
        assert(long.take(short.len() as int) =~= without_repeats(list + before).take(
            short.len() as int,
        ));
    } else {
        assert(list + more =~= list);
        assert(short.take(short.len() as int) =~= short);
        if list.len() > 1 {
            let before = list.drop_last();
            lemma_repeats(before, more);
            assert(list[list.len() - 1] == list.last());
            if list.no_duplicates() {
                assert(before.no_duplicates());
                assert(list[list.len() - 2] == before.last());
                assert(before.push(list.last()) =~= list);
            }
            assert forall|item: Seq<char>| #[trigger] short.contains(item) implies list.contains(
                item,
            ) by {
                let k = choose|k: int| 0 <= k < short.len() && short[k] == item;
                let kept = without_repeats(before);
                if k < kept.len() {
                    assert(kept[k] == item);
                    assert(kept.contains(item));
                    let m = choose|m: int| 0 <= m < before.len() && before[m] == item;
                    assert(list[m] == item);
                }
            }
        }
    }
}

/// The themes reached from the active one are searched first, in their order,
/// and the active one before all others; besides them only what `breeze` and
/// `hicolor` lead to is searched.
pub proof fn active_theme_is_searched_first(
    theme: Seq<char>,
    inherits: Map<Seq<char>, Vec<String>>,
    other: Seq<char>,
)
    requires
        inherits.dom().finite(),
        theme.len() > 0,
    ensures
        ({
            let own = reached(seq![theme], inherits, Seq::empty());
            let all = search_order(theme, inherits);
            &&& own.len() <= all.len()
            &&& all.take(own.len() as int) == own
            &&& all.len() > 0 && all[0] == theme
            &&& all.contains(other) <==> own.contains(other) || reached(
                seq!["breeze"@],
                inherits,
                Seq::empty(),
            ).contains(other) || reached(seq!["hicolor"@], inherits, Seq::empty()).contains(other)
        }),
{
    let own = reached(seq![theme], inherits, Seq::empty());
    let second = reached(seq!["breeze"@], inherits, Seq::empty());
    let third = reached(seq!["hicolor"@], inherits, Seq::empty());
    let list = own + second + third;
    let all = search_order(theme, inherits);
    themes_are_reached_once(seq![theme], inherits, Seq::empty());
    theme_comes_first(theme, inherits);
    lemma_repeats(own, second + third);
    assert(own + (second + third) =~= list);
    assert(all[0] == all.take(own.len() as int)[0]);
    lemma_repeats(list, Seq::empty());
    if own.contains(other) {
        let k = choose|k: int| 0 <= k < own.len() && own[k] == other;
        assert(list[k] == other);
        lemma_repeats_keep_items(list, other);
    }
    if second.contains(other) {
        let k = choose|k: int| 0 <= k < second.len() && second[k] == other;
        assert(list[own.len() + k] == other);
        lemma_repeats_keep_items(list, other);
    }
    if third.contains(other) {
        let k = choose|k: int| 0 <= k < third.len() && third[k] == other;
        assert(list[own.len() + second.len() + k] == other);
        lemma_repeats_keep_items(list, other);
    }
    if all.contains(other) {
        assert(list.contains(other));
        let k = choose|k: int| 0 <= k < list.len() && list[k] == other;
        if k < own.len() {
            assert(own[k] == other);
        } else if k < own.len() + second.len() {
            assert(second[k - own.len()] == other);
        } else {
            assert(third[k - own.len() - second.len()] == other);
        }
    }
}

// ---------------------------------------------------------------------
// The files of an icon
// ---------------------------------------------------------------------

/// A file below the directory of a theme. `dimensions` holds the width and
/// the height of the picture, where they could be read.
#[derive(Debug)]
pub struct IconFile {
    pub path: String,
    pub dimensions: Option<(u32, u32)>,
}

/// Whether the file shows the icon of this name.
pub open spec fn shows(file: Seq<char>, name: Seq<char>) -> bool {
    path::file_stem(file) == Some(name) && (path::extension(file) == Some("png"@)
        || path::extension(file) == Some("svg"@))
}

/// The size that the directory of a file names, such as `48x48`.
pub open spec fn named_size(file: Seq<char>) -> Option<u32> {
    match path::directory_above(file) {
        Some(name) => text::parsed_u32(text::split_at_char(name, 'x')[0]),
        None => None,
    }
}

/// The size of the picture in a file: the one that its directory names, else
/// the larger of its dimensions.
pub open spec fn picture_size(file: Seq<char>, dimensions: Option<(u32, u32)>) -> Option<u32> {
    match path::directory_above(file) {
        Some(_) => match named_size(file) {
            Some(size) => Some(size),
            None => match dimensions {
                Some((width, height)) => Some(
                    if width >= height {
                        width
                    } else {
                        height
                    },
                ),
                None => None,
            },
        },
        None => None,
    }
}

/// How good a file is: scalable before the size it is shown at, before larger
/// ones, before smaller ones; then by how near the size is.
pub open spec fn rank(file: IconFile) -> (u8, u32) {
    let size = match picture_size(file.path@, file.dimensions) {
        Some(size) => size,
        None => 0,
    };
    if path::extension(file.path@) == Some("svg"@) {
        (4, u32::MAX)
    } else if size == TARGET_SIZE {
        (3, u32::MAX)
    } else if size > TARGET_SIZE {
        (2, (u32::MAX - (size - TARGET_SIZE)) as u32)
    } else {
        (1, size)
    }
}

/// Whether the second file is taken before the first: it has the better rank
/// or, at the same rank, the path that comes later.
pub open spec fn ranks_below(file: IconFile, other: IconFile) -> bool {
    let a = rank(file);
    let b = rank(other);
    a.0 < b.0 || (a.0 == b.0 && (a.1 < b.1 || (a.1 == b.1 && text::precedes(
        file.path@,
        other.path@,
    ))))
}

/// Whether the file at `best` is the one to take of the first `n` files.
pub open spec fn is_best_file(files: Seq<IconFile>, name: Seq<char>, best: int, n: int) -> bool {
    &&& 0 <= best < n
    &&& shows(files[best].path@, name)
    &&& forall|j: int|
        0 <= j < n && shows((#[trigger] files[j]).path@, name) ==> !ranks_below(
            files[best],
            files[j],
        )
}

/// Whether a file is one of an icon.
pub fn is_icon_file(file: &str, name: &str) -> (res: bool)
    ensures
        res == shows(file@, name@),
{
    let chars = characters(file);
    let named = match stem_of(chars.as_slice()) {
        Some(stem) => reads(stem.as_slice(), name),
        None => false,
    };
    let ending = match extension_of(chars.as_slice()) {
        Some(ending) => reads(ending.as_slice(), "png") || reads(ending.as_slice(), "svg"),
        None => false,
    };
    named && ending
}

/// The size that the directory of a file names.
pub fn directory_size(file: &str) -> (res: Option<u32>)
    ensures
        res == named_size(file@),
{
    let chars = characters(file);
    match directory_name(chars.as_slice()) {
        Some(name) => {
            let parts = split(name.as_slice(), 'x');
            assert(text::pieces(parts@).len() > 0);
            assert(text::pieces(parts@)[0] == parts@[0]@);
            text::parse_u32(parts[0].as_slice())
        },
        None => None,
    }
}

/// The size of the picture in a file.
pub fn source_size(file: &str, dimensions: Option<(u32, u32)>) -> (res: Option<u32>)
    ensures
        res == picture_size(file@, dimensions),
{
    let chars = characters(file);
    if directory_name(chars.as_slice()).is_none() {
        return None;
    }
    match directory_size(file) {
        Some(size) => Some(size),
        None => match dimensions {
            Some((width, height)) => if width >= height {
                Some(width)
            } else {
                Some(height)
            },
            None => None,
        },
    }
}

/// How good a file is.
pub fn candidate_rank(file: &IconFile) -> (res: (u8, u32))
    ensures
        res == rank(*file),
{
    let chars = characters(file.path.as_str());
    if let Some(ending) = extension_of(chars.as_slice()) {
        if reads(ending.as_slice(), "svg") {
            return (4, u32::MAX);
        }
    }
    let size: u32 = match source_size(file.path.as_str(), file.dimensions) {
        Some(size) => size,
        None => 0,
    };
    if size == TARGET_SIZE {
        (3, u32::MAX)
    } else if size > TARGET_SIZE {
        (2, u32::MAX - (size - TARGET_SIZE))
    } else {
        (1, size)
    }
}

fn is_ranked_below(file: &IconFile, other: &IconFile) -> (res: bool)
    ensures
        res == ranks_below(*file, *other),
{
    let a = candidate_rank(file);
    let b = candidate_rank(other);
    a.0 < b.0 || (a.0 == b.0 && (a.1 < b.1 || (a.1 == b.1 && is_before(
        file.path.as_str(),
        other.path.as_str(),
    ))))
}

/// A file that ranks below another ranks below every file that the other does
/// not outrank.
pub proof fn lemma_ranks(a: IconFile, b: IconFile, c: IconFile)
    ensures
        !ranks_below(a, a),
        ranks_below(a, b) && !ranks_below(c, b) ==> ranks_below(a, c),
{
    text::lemma_precedes_irreflexive(a.path@);
    text::lemma_precedes_total(c.path@, b.path@);
    if text::precedes(a.path@, b.path@) && text::precedes(b.path@, c.path@) {
        text::lemma_precedes_transitive(a.path@, b.path@, c.path@);
    }
}

/// The place of the file to take for an icon.
pub fn best_file(files: &[IconFile], name: &str) -> (res: Option<usize>)
    ensures
        match res {
            Some(i) => is_best_file(files@, name@, i as int, files@.len() as int),
            None => forall|j: int|
                0 <= j < files@.len() ==> !shows((#[trigger] files@[j]).path@, name@),
        },
{
    let mut best: Option<usize> = None;
    let mut i: usize = 0;
    while i < files.len()
        invariant
            i <= files@.len(),
            match best {
                Some(at) => is_best_file(files@, name@, at as int, i as int),
                None => forall|j: int|
                    0 <= j < i ==> !shows((#[trigger] files@[j]).path@, name@),
            },
        decreases files@.len() - i,
    {
        let ghost before = best;
        if is_icon_file(files[i].path.as_str(), name) {
            match best {
                Some(at) => {
                    let better = is_ranked_below(&files[at], &files[i]);
                    if better {
                        best = Some(i);
                    }
                    proof {
                        lemma_ranks(files@[i as int], files@[i as int], files@[i as int]);
                        if better {
                            assert forall|j: int|
                                0 <= j < i && shows(
                                    (#[trigger] files@[j]).path@,
                                    name@,
                                ) implies !ranks_below(files@[i as int], files@[j]) by {
                                if ranks_below(files@[i as int], files@[j]) {
                                    lemma_ranks(
                                        files@[i as int],
                                        files@[j],
                                        files@[at as int],
                                    );
                                    lemma_ranks(
                                        files@[at as int],
                                        files@[i as int],
                                        files@[at as int],
                                    );
                                    lemma_ranks_asymmetric(files@[at as int], files@[i as int]);
                                }
                            }
                        }
                    }
                },
                None => {
                    best = Some(i);
                    proof {
                        lemma_ranks(files@[i as int], files@[i as int], files@[i as int]);
                    }
                },
            }
        }
        i += 1;
    }
    best
}

proof fn lemma_ranks_asymmetric(a: IconFile, b: IconFile)
    requires
        ranks_below(a, b),
    ensures
        !ranks_below(b, a),
{
    if text::precedes(a.path@, b.path@) && text::precedes(b.path@, a.path@) {
        text::lemma_precedes_transitive(a.path@, b.path@, a.path@);
        text::lemma_precedes_irreflexive(a.path@);
    }
}

/// The name of an icon without the endings `.png` and then `.svg`.
pub open spec fn icon_name(icon: Seq<char>) -> Seq<char> {
    text::without_suffixes(text::without_suffixes(icon, ".png"@), ".svg"@)
}

/// The name under which an icon is looked for.
pub fn base_icon_name(icon: &str) -> (res: String)
    ensures
        res@ == icon_name(icon@),
{
    let chars = characters(icon);
    let png = characters(".png");
    let svg = characters(".svg");
    from_characters(
        strip_suffixes(strip_suffixes(chars.as_slice(), png.as_slice()), svg.as_slice()),
    )
}

/// Whether an icon is given by its whole path.
pub open spec fn is_path(icon: Seq<char>) -> bool {
    text::starts(icon, seq!['/'])
}

/// Whether an icon is given by its whole path.
pub fn is_absolute(icon: &str) -> (res: bool)
    ensures
        res == is_path(icon@),
{
    let chars = characters(icon);
    let slash: [char; 1] = ['/'];
    assert(slash@ =~= seq!['/']);
    starts_with(chars.as_slice(), slash.as_slice())
}

/// Whether some of the files shows the icon.
pub open spec fn has_file(files: Seq<IconFile>, name: Seq<char>) -> bool {
    exists|i: int| 0 <= i < files.len() && shows((#[trigger] files[i]).path@, name)
}

/// Whether this is the file of an icon, where there is one. `is_file` tells
/// whether the icon itself is the path of a file.
pub open spec fn is_file_of_icon(
    found: Option<Seq<char>>,
    icon: Seq<char>,
    is_file: bool,
    themes: Seq<Vec<IconFile>>,
) -> bool {
    &&& is_path(icon) ==> found == if is_file {
        Some(icon)
    } else {
        None
    }
    &&& !is_path(icon) ==> match found {
        Some(file) => exists|t: int, i: int|
            {
                &&& 0 <= t < themes.len()
                &&& #[trigger] is_best_file(
                    themes[t]@,
                    icon_name(icon),
                    i,
                    themes[t]@.len() as int,
                )
                &&& file == themes[t]@[i].path@
                &&& forall|u: int|
                    0 <= u < t ==> !has_file((#[trigger] themes[u])@, icon_name(icon))
            },
        None => forall|u: int|
            0 <= u < themes.len() ==> !has_file((#[trigger] themes[u])@, icon_name(icon)),
    }
}

/// An icon that is given by its path is that file. Any other is found wherever
/// a theme has a file for it, and in the first such theme.
pub proof fn first_theme_with_the_icon_is_taken(
    found: Option<Seq<char>>,
    icon: Seq<char>,
    is_file: bool,
    themes: Seq<Vec<IconFile>>,
    t: int,
    i: int,
)
    requires
        is_file_of_icon(found, icon, is_file, themes),
        0 <= t < themes.len(),
        0 <= i < themes[t]@.len(),
        shows(themes[t]@[i].path@, icon_name(icon)),
        forall|u: int| 0 <= u < t ==> !has_file((#[trigger] themes[u])@, icon_name(icon)),
    ensures
        is_path(icon) && is_file ==> found == Some(icon),
        is_path(icon) && !is_file ==> found is None,
        !is_path(icon) ==> found is Some && exists|k: int|
            0 <= k < themes[t]@.len() && found == Some((#[trigger] themes[t]@[k]).path@) && shows(
                themes[t]@[k].path@,
                icon_name(icon),
            ),
{
    if !is_path(icon) {
        let shown = themes[t]@[i];
        assert(has_file(themes[t]@, icon_name(icon)));
        let (v, k) = choose|v: int, k: int|
            {
                &&& 0 <= v < themes.len()
                &&& #[trigger] is_best_file(
                    themes[v]@,
                    icon_name(icon),
                    k,
                    themes[v]@.len() as int,
                )
                &&& found->0 == themes[v]@[k].path@
                &&& forall|u: int|
                    0 <= u < v ==> !has_file((#[trigger] themes[u])@, icon_name(icon))
            };
        let taken = themes[v]@[k];
        assert(has_file(themes[v]@, icon_name(icon)));
        assert(v == t);
    }
}

/// Finds the file of an icon. `is_file` tells whether the icon itself is the
/// path of a file; `themes` holds the files of each theme to search, in order.
pub fn resolve_icon(icon: &str, is_file: bool, themes: &[Vec<IconFile>]) -> (res: Option<String>)
    ensures
        is_file_of_icon(text::text_of(res), icon@, is_file, themes@),
{
    if is_absolute(icon) {
        return if is_file {
            Some(icon.to_owned())
        } else {
            None
        };
    }
    let name = base_icon_name(icon);
    let mut t: usize = 0;
    while t < themes.len()
        invariant
            t <= themes@.len(),
            !is_path(icon@),
            name@ == icon_name(icon@),
            forall|u: int|
                0 <= u < t ==> !has_file((#[trigger] themes@[u])@, icon_name(icon@)),
        decreases themes@.len() - t,
    {
        if let Some(i) = best_file(themes[t].as_slice(), name.as_str()) {
            assert(is_best_file(
                themes@[t as int]@,
                icon_name(icon@),
                i as int,
                themes@[t as int]@.len() as int,
            ));
            return Some(themes[t][i].path.clone());
        }
        t += 1;
    }
    None
}

/// Of the files of one theme a scalable one wins over every other kind; of
/// the others one of the size it is shown at wins over every larger one, and
/// that over every smaller one.
pub proof fn scalable_and_large_files_win(
    files: Seq<IconFile>,
    name: Seq<char>,
    best: int,
    other: int,
)
    requires
        is_best_file(files, name, best, files.len() as int),
        0 <= other < files.len(),
        shows(files[other].path@, name),
    ensures
        path::extension(files[other].path@) == Some("svg"@) ==> path::extension(
            files[best].path@,
        ) == Some("svg"@),
        rank(files[other]).0 <= rank(files[best]).0,
{
    assert(!ranks_below(files[best], files[other]));
}

/// Of the files of one theme that are no drawings, one of the size that icons
/// are shown at wins; without one, the smallest of the larger ones does; and
/// only without a larger one the largest of the smaller ones. A drawing wins
/// over them all.
pub proof fn nearest_size_wins(
    files: Seq<IconFile>,
    name: Seq<char>,
    best: int,
    taken: u32,
    other: int,
    left: u32,
)
    requires
        is_best_file(files, name, best, files.len() as int),
        0 <= other < files.len(),
        shows(files[other].path@, name),
        path::extension(files[other].path@) != Some("svg"@),
        picture_size(files[best].path@, files[best].dimensions) == Some(taken),
        picture_size(files[other].path@, files[other].dimensions) == Some(left),
    ensures
        path::extension(files[best].path@) == Some("svg"@) || {
            &&& left == 128 ==> taken == 128
            &&& left > 128 ==> 128 <= taken <= left
            &&& left < 128 ==> left <= taken
        },
{
    assert(!ranks_below(files[best], files[other]));
}

/// The size of a picture is the one that its directory names and, where that
/// names none, the longer of its sides.
pub proof fn picture_size_is_named_or_measured(
    file: Seq<char>,
    named: u32,
    width: u32,
    height: u32,
    dimensions: Option<(u32, u32)>,
)
    requires
        path::directory_above(file) is Some,
    ensures
        named_size(file) == Some(named) ==> picture_size(file, dimensions) == Some(named),
        named_size(file) is None ==> picture_size(file, Some((width, height))) is Some
            && picture_size(file, Some((width, height)))->0 >= width && picture_size(
            file,
            Some((width, height)),
        )->0 >= height && (picture_size(file, Some((width, height))) == Some(width)
            || picture_size(file, Some((width, height))) == Some(height)),
        named_size(file) is None ==> picture_size(file, None) is None,
{
}

/// The endings `.png` and `.svg` do not count in the name of an icon.
pub proof fn icon_names_have_no_ending(name: Seq<char>)
    requires
        !text::ends(name, ".png"@),
        !text::ends(name, ".svg"@),
    ensures
        icon_name(name) == name,
        icon_name(name + ".png"@) == name,
        icon_name(name + ".svg"@) == name,
{
    reveal_strlit(".png");
    reveal_strlit(".svg");
    text::suffixes_are_taken_from_the_end(name, ".png"@);
    text::suffixes_are_taken_from_the_end(name, ".svg"@);
    let drawing = name + ".svg"@;
    assert(!text::ends(drawing, ".png"@)) by {
        let tail = drawing.skip(drawing.len() - 4);
        assert(tail[1] == 's');
        assert(".png"@[1] == 'p');
    }
}

/// Two files of a theme that may both be taken have the same path, so the
/// order in which a theme's files were found does not matter.
pub proof fn best_file_is_unique(files: Seq<IconFile>, name: Seq<char>, one: int, other: int)
    requires
        is_best_file(files, name, one, files.len() as int),
        is_best_file(files, name, other, files.len() as int),
    ensures
        files[one].path@ == files[other].path@,
{
    assert(!ranks_below(files[one], files[other]));
    assert(!ranks_below(files[other], files[one]));
    text::lemma_precedes_total(files[one].path@, files[other].path@);
}

} // verus!
