//! Desktop entries: parsing them and matching them with an application.

use vstd::prelude::*;

use crate::path;
use crate::path::name_of;
use crate::sort::Sortable;
use crate::text;
use crate::text::{
    characters, contains_char, ends_with, from_characters, is_before, join, lower, lower_text, reads,
    same, same_ignoring_case, split_lines, split_once, split_words, strip, trim,
};

verus! {

/// An application's desktop entry.
#[derive(Debug)]
pub struct DesktopEntry {
    pub id: String,
    pub path: String,
    pub name: String,
    pub icon: String,
    pub command: String,
    pub try_exec: String,
    pub startup_wm_class: String,
    pub flatpak_id: String,
    pub hidden: bool,
    pub no_display: bool,
}

impl Clone for DesktopEntry {
    fn clone(&self) -> (res: Self)
        ensures
            res == *self,
    {
        DesktopEntry {
            id: self.id.clone(),
            path: self.path.clone(),
            name: self.name.clone(),
            icon: self.icon.clone(),
            command: self.command.clone(),
            try_exec: self.try_exec.clone(),
            startup_wm_class: self.startup_wm_class.clone(),
            flatpak_id: self.flatpak_id.clone(),
            hidden: self.hidden,
            no_display: self.no_display,
        }
    }
}

impl Default for DesktopEntry {
    fn default() -> (res: Self)
        ensures
            res.id@.len() == 0,
            res.path@.len() == 0,
            res.name@.len() == 0,
            res.icon@.len() == 0,
            res.command@.len() == 0,
            res.try_exec@.len() == 0,
            res.startup_wm_class@.len() == 0,
            res.flatpak_id@.len() == 0,
            !res.hidden,
            !res.no_display,
    {
        DesktopEntry {
            id: String::new(),
            path: String::new(),
            name: String::new(),
            icon: String::new(),
            command: String::new(),
            try_exec: String::new(),
            startup_wm_class: String::new(),
            flatpak_id: String::new(),
            hidden: false,
            no_display: false,
        }
    }
}

/// What is known of the application whose entry is looked for.
#[derive(Debug)]
pub struct AppMetadata {
    pub desktop: Option<String>,
    pub application_id: Option<String>,
    pub application_name: String,
    pub process_binary: Option<String>,
    pub process_id: Option<u32>,
    pub startup_wm_class: Option<String>,
    pub flatpak_id: Option<String>,
}

impl Default for AppMetadata {
    fn default() -> (res: Self)
        ensures
            res.desktop is None,
            res.application_id is None,
            res.application_name@.len() == 0,
            res.process_binary is None,
            res.process_id is None,
            res.startup_wm_class is None,
            res.flatpak_id is None,
    {
        AppMetadata {
            desktop: None,
            application_id: None,
            application_name: String::new(),
            process_binary: None,
            process_id: None,
            startup_wm_class: None,
            flatpak_id: None,
        }
    }
}

/// An entry that matches an application, how well, and by what.
#[derive(Debug)]
pub struct DesktopMatch {
    pub entry: DesktopEntry,
    pub score: u16,
    pub reason: &'static str,
}

// ---------------------------------------------------------------------
// Identifiers
// ---------------------------------------------------------------------

/// A desktop file id in lower case and with its suffix.
pub open spec fn desktop_id(value: Seq<char>) -> Seq<char> {
    let id = text::lowered(text::trimmed(value));
    if text::ends(id, ".desktop"@) {
        id
    } else {
        id + ".desktop"@
    }
}

proof fn lemma_trimmed_edges(s: Seq<char>)
    ensures
        text::trimmed_start(s).len() > 0 ==> !text::is_white(text::trimmed_start(s)[0]),
    decreases s.len(),
{
    if s.len() > 0 && text::is_white(s[0]) {
        lemma_trimmed_edges(s.skip(1));
    }
}

proof fn lemma_trimmed_end_starts(s: Seq<char>)
    ensures
        text::trimmed_end(s).len() > 0 ==> s.len() > 0 && text::trimmed_end(s)[0] == s[0],
    decreases s.len(),
{
    if s.len() > 0 && text::is_white(s.last()) {
        lemma_trimmed_end_starts(s.drop_last());
    }
}

/// Putting a desktop file id in its form twice changes nothing more.
pub proof fn desktop_id_is_stable(value: Seq<char>)
    ensures
        desktop_id(desktop_id(value)) == desktop_id(value),
{
    reveal_strlit(".desktop");
    let suffix = ".desktop"@;
    let plain = text::trimmed(value);
    lemma_trimmed_edges(value);
    lemma_trimmed_end_starts(text::trimmed_start(value));
    let lower = text::lowered(plain);
    let id = desktop_id(value);
    assert(id.skip(id.len() - suffix.len()) =~= suffix);
    assert(id.last() == suffix[7]);
    if lower.len() > 0 {
        assert(lower[0] == text::lowered_char(plain[0]));
        assert(id[0] == lower[0]);
    }
    assert(!text::is_white(id[0]));
    assert(text::trimmed(id) == id);
    assert forall|i: int| 0 <= i < id.len() implies text::lowered_char(#[trigger] id[i]) == id[i] by {
        if i < lower.len() {
            assert(id[i] == text::lowered_char(plain[i]));
        } else {
            assert(id[i] == suffix[i - lower.len()]);
        }
    }
    assert(text::lowered(id) =~= id);
}

/// A desktop file id always has its suffix, and does not depend on the case or
/// on white space around it.
pub proof fn desktop_id_ignores_case(value: Seq<char>)
    ensures
        text::ends(desktop_id(value), ".desktop"@),
        desktop_id(text::lowered(text::trimmed(value))) == desktop_id(value),
        forall|i: int|
            0 <= i < desktop_id(value).len() ==> !('A' <= #[trigger] desktop_id(value)[i] <= 'Z'),
{
    reveal_strlit(".desktop");
    let suffix = ".desktop"@;
    let plain = text::trimmed(value);
    let lower = text::lowered(plain);
    let id = desktop_id(value);
    assert(id.skip(id.len() - suffix.len()) =~= suffix);
    assert forall|i: int| 0 <= i < id.len() implies !('A' <= #[trigger] id[i] <= 'Z') by {
        if i < lower.len() {
            assert(id[i] == text::lowered_char(plain[i]));
        } else {
            assert(id[i] == suffix[i - lower.len()]);
        }
    }
    lemma_trimmed_edges(value);
    lemma_trimmed_end_starts(text::trimmed_start(value));
    lemma_trimmed_last(text::trimmed_start(value));
    if lower.len() > 0 {
        assert(lower[0] == text::lowered_char(plain[0]));
        assert(lower.last() == text::lowered_char(plain.last()));
    }
    assert(text::trimmed(lower) == lower);
    assert forall|i: int| 0 <= i < lower.len() implies text::lowered_char(#[trigger] lower[i])
        == lower[i] by {
        assert(lower[i] == text::lowered_char(plain[i]));
    }
    assert(text::lowered(lower) =~= lower);
}

proof fn lemma_trimmed_last(s: Seq<char>)
    ensures
        text::trimmed_end(s).len() > 0 ==> !text::is_white(text::trimmed_end(s).last()),
    decreases s.len(),
{
    if s.len() > 0 && text::is_white(s.last()) {
        lemma_trimmed_last(s.drop_last());
    }
}

/// Puts a desktop file id in lower case and gives it its suffix.
pub fn normalize_desktop_id(value: &str) -> (res: String)
    ensures
        res@ == desktop_id(value@),
{
    let chars = characters(value);
    let id = lower(trim(chars.as_slice()));
    let end = characters(".desktop");
    let text = from_characters(id.as_slice());
    if ends_with(id.as_slice(), end.as_slice()) {
        text
    } else {
        join(text.as_str(), ".desktop")
    }
}

/// The letters and digits of a name, in lower case.
pub open spec fn simplified(value: Seq<char>) -> Seq<char> {
    text::lowered(value.filter(|c: char| text::is_alphanumeric(c)))
}

/// Keeps the letters and digits of a name, in lower case.
pub fn normalized(value: &str) -> (res: String)
    ensures
        res@ == simplified(value@),
{
    let chars = characters(value);
    let ghost p = |c: char| text::is_alphanumeric(c);
    let mut out: Vec<char> = Vec::new();
    let mut i: usize = 0;
    assert(chars@.take(0) =~= Seq::<char>::empty());
    assert(out@ =~= chars@.take(0).filter(p)) by {
        reveal(Seq::filter);
    }
    while i < chars.len()
        invariant
            i <= chars@.len(),
            p == (|c: char| text::is_alphanumeric(c)),
            out@ == chars@.take(i as int).filter(p),
        decreases chars@.len() - i,
    {
        let c = chars[i];
        proof {
            assert(chars@.take(i + 1) =~= chars@.take(i as int).push(c));
            chars@.take(i as int).lemma_filter_push(c, p);
        }
        if ('0' <= c && c <= '9') || ('a' <= c && c <= 'z') || ('A' <= c && c <= 'Z') {
            out.push(c);
        }
        i += 1;
    }
    assert(chars@.take(i as int) =~= chars@);
    let low = lower(out.as_slice());
    from_characters(low.as_slice())
}

/// What is left of a name are lower-case letters and digits alone.
pub proof fn simplified_names_are_plain(value: Seq<char>, i: int)
    requires
        0 <= i < simplified(value).len(),
    ensures
        'a' <= simplified(value)[i] <= 'z' || '0' <= simplified(value)[i] <= '9',
{
    let kept = value.filter(|c: char| text::is_alphanumeric(c));
    value.lemma_filter_pred(|c: char| text::is_alphanumeric(c), i);
    assert(simplified(value)[i] == text::lowered_char(kept[i]));
}

// ---------------------------------------------------------------------
// Commands
// ---------------------------------------------------------------------

/// Whether a word of a command line is neither a field code nor a variable
/// assignment.
pub open spec fn is_program(word: Seq<char>) -> bool {
    !(word.len() > 0 && word[0] == '%') && !word.contains('=')
}

/// The first word that names a program.
pub open spec fn first_program(list: Seq<Seq<char>>) -> Option<Seq<char>>
    decreases list.len(),
{
    if list.len() == 0 {
        None
    } else if is_program(list[0]) {
        Some(list[0])
    } else {
        first_program(list.skip(1))
    }
}

/// The file name of a path, in lower case.
pub open spec fn lowered_file_name(s: Seq<char>) -> Option<Seq<char>> {
    match path::file_name(s) {
        Some(name) => Some(text::lowered(name)),
        None => None,
    }
}

/// The file name of the program that a command line starts, in lower case.
pub open spec fn program_name(command: Seq<char>) -> Option<Seq<char>> {
    match first_program(text::words(command)) {
        Some(word) => lowered_file_name(word),
        None => None,
    }
}

/// The program of a command line is its first word that is neither a field
/// code nor an assignment; there is one as soon as there is such a word.
pub proof fn program_is_the_first_plain_word(list: Seq<Seq<char>>, i: int)
    requires
        0 <= i < list.len(),
        !(list[i].len() > 0 && list[i][0] == '%'),
        !list[i].contains('='),
        forall|k: int|
            0 <= k < i ==> ((#[trigger] list[k]).len() > 0 && list[k][0] == '%')
                || list[k].contains('='),
    ensures
        first_program(list) == Some(list[i]),
    decreases list.len(),
{
    if i > 0 {
        let rest = list.skip(1);
        assert forall|k: int| 0 <= k < i - 1 implies ((#[trigger] rest[k]).len() > 0
            && rest[k][0] == '%') || rest[k].contains('=') by {
            assert(rest[k] == list[k + 1]);
        }
        program_is_the_first_plain_word(rest, i - 1);
    }
}

/// The file name of a path, in lower case.
fn lower_file_name(s: &[char]) -> (res: Option<String>)
    ensures
        text::text_of(res) == lowered_file_name(s@),
{
    match name_of(s) {
        Some(name) => {
            let low = lower(name.as_slice());
            Some(from_characters(low.as_slice()))
        },
        None => None,
    }
}

/// The file name of the program that a command line starts.
pub fn executable_basename(command: &str) -> (res: Option<String>)
    ensures
        text::text_of(res) == program_name(command@),
{
    let chars = characters(command);
    let list = split_words(chars.as_slice());
    let ghost all = text::words(command@);
    let mut i: usize = 0;
    assert(all.skip(0) =~= all);
    while i < list.len()
        invariant
            i <= list@.len(),
            all == text::pieces(list@),
            all == text::words(command@),
            first_program(all) == first_program(all.skip(i as int)),
        decreases list@.len() - i,
    {
        let word = list[i].as_slice();
        assert(all[i as int] == word@);
        assert(all.skip(i as int)[0] == word@);
        if !(word.len() > 0 && word[0] == '%') && !contains_char(word, '=') {
            return lower_file_name(word);
        }
        assert(all.skip(i as int).skip(1) =~= all.skip(i + 1));
        i += 1;
    }
    None
}

// ---------------------------------------------------------------------
// Parsing
// ---------------------------------------------------------------------

/// The assignments of the section `[Desktop Entry]`, in order. `inside` says
/// whether the first line stands in that section. Assignments to localized
/// keys do not count.
pub open spec fn assignments(list: Seq<Seq<char>>, inside: bool) -> Seq<(Seq<char>, Seq<char>)>
    decreases list.len(),
{
    if list.len() == 0 {
        Seq::empty()
    } else {
        let line = text::trimmed(list[0]);
        let rest = list.skip(1);
        if line == "[Desktop Entry]"@ {
            assignments(rest, true)
        } else if line.len() > 0 && line[0] == '[' {
            assignments(rest, false)
        } else if !inside || line.len() == 0 || line[0] == '#' {
            assignments(rest, inside)
        } else {
            match text::divided(line, '=') {
                Some((key, value)) => if key.contains('[') {
                    assignments(rest, inside)
                } else {
                    seq![(key, text::trimmed(value))] + assignments(rest, inside)
                },
                None => assignments(rest, inside),
            }
        }
    }
}

/// The first value that is assigned to a key.
pub open spec fn first_value(list: Seq<(Seq<char>, Seq<char>)>, key: Seq<char>) -> Option<Seq<char>>
    decreases list.len(),
{
    if list.len() == 0 {
        None
    } else if list[0].0 == key {
        Some(list[0].1)
    } else {
        first_value(list.skip(1), key)
    }
}

/// The value of a key in the text of a desktop file.
pub open spec fn entry_value(contents: Seq<char>, key: Seq<char>) -> Option<Seq<char>> {
    first_value(assignments(text::lines(contents), false), key)
}

/// The value of a key; the empty text where the key is missing.
pub open spec fn entry_text(contents: Seq<char>, key: Seq<char>) -> Seq<char> {
    match entry_value(contents, key) {
        Some(value) => value,
        None => Seq::empty(),
    }
}

/// Whether a key has the value true, in any case.
pub open spec fn entry_flag(contents: Seq<char>, key: Seq<char>) -> bool {
    match entry_value(contents, key) {
        Some(value) => text::lowered(value) == text::lowered("true"@),
        None => false,
    }
}

/// What a list of pairs of strings reads.
pub open spec fn pairs(list: Seq<(String, String)>) -> Seq<(Seq<char>, Seq<char>)> {
    list.map_values(|p: (String, String)| (p.0@, p.1@))
}

/// Reads the assignments of the section `[Desktop Entry]`.
fn read_assignments(contents: &str) -> (res: Vec<(String, String)>)
    ensures
        pairs(res@) == assignments(text::lines(contents@), false),
{
    let chars = characters(contents);
    let list = split_lines(chars.as_slice());
    let ghost all = text::lines(contents@);
    let mut out: Vec<(String, String)> = Vec::new();
    let mut inside = false;
    let mut i: usize = 0;
    assert(all.skip(0) =~= all);
    assert(pairs(out@) + assignments(all, false) =~= assignments(all, false));
    while i < list.len()
        invariant
            i <= list@.len(),
            all == text::pieces(list@),
            pairs(out@) + assignments(all.skip(i as int), inside) == assignments(all, false),
        decreases list@.len() - i,
    {
        let line = trim(list[i].as_slice());
        assert(all.skip(i as int)[0] == list@[i as int]@);
        assert(all.skip(i as int).skip(1) =~= all.skip(i + 1));
        i += 1;
        if reads(line, "[Desktop Entry]") {
            inside = true;
        } else if line.len() > 0 && line[0] == '[' {
            inside = false;
        } else if inside && line.len() > 0 && line[0] != '#' {
            if let Some((key, value)) = split_once(line, '=') {
                if !contains_char(key, '[') {
                    let ghost before = pairs(out@);
                    let ghost tail = assignments(all.skip(i as int), inside);
                    let pair = (from_characters(key), from_characters(trim(value)));
                    let ghost item = (pair.0@, pair.1@);
                    out.push(pair);
                    assert(pairs(out@) =~= before.push(item));
                    assert(pairs(out@) + tail =~= before + (seq![item] + tail));
                }
            }
        }
    }
    assert(pairs(out@) + assignments(all.skip(i as int), inside) =~= pairs(out@));
    out
}

/// The first value of a key.
fn value_of(list: &Vec<(String, String)>, key: &str) -> (res: Option<String>)
    ensures
        text::text_of(res) == first_value(pairs(list@), key@),
{
    let ghost all = pairs(list@);
    let mut i: usize = 0;
    assert(all.skip(0) =~= all);
    while i < list.len()
        invariant
            i <= list@.len(),
            all == pairs(list@),
            first_value(all, key@) == first_value(all.skip(i as int), key@),
        decreases list@.len() - i,
    {
        assert(all.skip(i as int)[0] == all[i as int]);
        if same(list[i].0.as_str(), key) {
            return Some(list[i].1.clone());
        }
        assert(all.skip(i as int).skip(1) =~= all.skip(i + 1));
        i += 1;
    }
    None
}

/// The first value of a key, or the empty text.
fn value_or_empty(list: &Vec<(String, String)>, key: &str) -> (res: String)
    ensures
        res@ == match first_value(pairs(list@), key@) {
            Some(value) => value,
            None => Seq::empty(),
        },
{
    match value_of(list, key) {
        Some(value) => value,
        None => String::new(),
    }
}

/// Whether a value is true, in any case.
pub fn parse_bool(value: Option<&String>) -> (res: bool)
    ensures
        res == match value {
            Some(value) => text::lowered(value@) == text::lowered("true"@),
            None => false,
        },
{
    match value {
        Some(value) => same_ignoring_case(value.as_str(), "true"),
        None => false,
    }
}

/// Whether the text is that of an application with a file name.
pub open spec fn is_entry(path: Seq<char>, contents: Seq<char>) -> bool {
    entry_value(contents, "Type"@) == Some("Application"@) && path::file_name(path) is Some
}

/// The entry that a desktop file at this path holds.
pub open spec fn is_entry_of(entry: DesktopEntry, path: Seq<char>, contents: Seq<char>) -> bool {
    &&& Some(entry.id@) == path::file_name(path)
    &&& entry.path@ == path
    &&& entry.name@ == entry_text(contents, "Name"@)
    &&& entry.icon@ == entry_text(contents, "Icon"@)
    &&& entry.command@ == entry_text(contents, "Exec"@)
    &&& entry.try_exec@ == entry_text(contents, "TryExec"@)
    &&& entry.startup_wm_class@ == entry_text(contents, "StartupWMClass"@)
    &&& entry.flatpak_id@ == entry_text(contents, "X-Flatpak"@)
    &&& entry.hidden == entry_flag(contents, "Hidden"@)
    &&& entry.no_display == entry_flag(contents, "NoDisplay"@)
}

/// Whether a line stands in the section `[Desktop Entry]`: behind its head,
/// with no other head between them. `inside` says whether the first line does.
pub open spec fn stands_in_section(list: Seq<Seq<char>>, inside: bool, i: int) -> bool {
    (inside && forall|k: int| 0 <= k < i ==> !is_head(#[trigger] list[k])) || exists|j: int|
        0 <= j < i && text::trimmed(#[trigger] list[j]) == "[Desktop Entry]"@ && forall|k: int|
            j < k < i ==> !is_head(#[trigger] list[k])
}

/// Whether a line is the head of a section.
pub open spec fn is_head(line: Seq<char>) -> bool {
    text::trimmed(line).len() > 0 && text::trimmed(line)[0] == '['
}

/// Whether a line assigns this value to this key. A comment does not, nor does
/// an assignment to a localized key.
pub open spec fn line_assigns(line: Seq<char>, key: Seq<char>, value: Seq<char>) -> bool {
    &&& text::trimmed(line).len() > 0
    &&& text::trimmed(line)[0] != '['
    &&& text::trimmed(line)[0] != '#'
    &&& text::divided(text::trimmed(line), '=') matches Some((left, right)) && left == key
        && text::trimmed(right) == value
    &&& !key.contains('[')
}

/// Whether the line at `i` is the first of the section that assigns something
/// to the key, and what it assigns is the value.
pub open spec fn is_first_assignment(
    list: Seq<Seq<char>>,
    inside: bool,
    key: Seq<char>,
    value: Seq<char>,
    i: int,
) -> bool {
    &&& 0 <= i < list.len()
    &&& stands_in_section(list, inside, i)
    &&& line_assigns(list[i], key, value)
    &&& forall|k: int, other: Seq<char>|
        0 <= k < i && stands_in_section(list, inside, k) ==> !(#[trigger] line_assigns(
            list[k],
            key,
            other,
        ))
}

proof fn lemma_section(list: Seq<Seq<char>>, inside: bool, i: int)
    requires
        1 <= i < list.len(),
    ensures
        stands_in_section(list, inside, i) <==> stands_in_section(
            list.skip(1),
            text::trimmed(list[0]) == "[Desktop Entry]"@ || (inside && !is_head(list[0])),
            i - 1,
        ),
{
    reveal_strlit("[Desktop Entry]");
    let rest = list.skip(1);
    let first = list[0];
    let begins = text::trimmed(first) == "[Desktop Entry]"@;
    let stays = inside && !is_head(first);
    assert(begins ==> is_head(first));
    if stands_in_section(list, inside, i) {
        if inside && forall|k: int| 0 <= k < i ==> !is_head(#[trigger] list[k]) {
            assert(!is_head(list[0]));
            assert forall|k: int| 0 <= k < i - 1 implies !is_head(#[trigger] rest[k]) by {
                assert(rest[k] == list[k + 1]);
            }
        } else {
            let j = choose|j: int|
                0 <= j < i && text::trimmed(#[trigger] list[j]) == "[Desktop Entry]"@ && forall|
                    k: int,
                |
                    j < k < i ==> !is_head(#[trigger] list[k]);
            assert forall|k: int| j - 1 < k < i - 1 && 0 <= k implies !is_head(
                #[trigger] rest[k],
            ) by {
                assert(rest[k] == list[k + 1]);
            }
            if j > 0 {
                assert(rest[j - 1] == list[j]);
            }
        }
    }
    if stands_in_section(rest, begins || stays, i - 1) {
        if (begins || stays) && forall|k: int| 0 <= k < i - 1 ==> !is_head(#[trigger] rest[k]) {
            assert forall|k: int| 1 <= k < i implies !is_head(#[trigger] list[k]) by {
                assert(list[k] == rest[k - 1]);
            }
            if begins {
                assert(text::trimmed(list[0]) == "[Desktop Entry]"@);
            }
        } else {
            let j = choose|j: int|
                0 <= j < i - 1 && text::trimmed(#[trigger] rest[j]) == "[Desktop Entry]"@
                    && forall|k: int| j < k < i - 1 ==> !is_head(#[trigger] rest[k]);
            assert(list[j + 1] == rest[j]);
            assert forall|k: int| j + 1 < k < i implies !is_head(#[trigger] list[k]) by {
                assert(list[k] == rest[k - 1]);
            }
        }
    }
}

proof fn lemma_first_assignment(
    list: Seq<Seq<char>>,
    inside: bool,
    key: Seq<char>,
    value: Seq<char>,
    i: int,
)
    requires
        is_first_assignment(list, inside, key, value, i),
    ensures
        first_value(assignments(list, inside), key) == Some(value),
    decreases list.len(),
{
    reveal_strlit("[Desktop Entry]");
    let first = list[0];
    let rest = list.skip(1);
    let line = text::trimmed(first);
    let then = line == "[Desktop Entry]"@ || (inside && !is_head(first));
    if i == 0 {
        assert(inside);
        assert(!is_head(first));
        let found = assignments(list, inside);
        assert(found[0] == (key, value));
    } else {
        lemma_section(list, inside, i);
        assert forall|k: int, other: Seq<char>|
            0 <= k < i - 1 && stands_in_section(rest, then, k) implies !(#[trigger] line_assigns(
            rest[k],
            key,
            other,
        )) by {
            lemma_section(list, inside, k + 1);
            assert(rest[k] == list[k + 1]);
            assert(!line_assigns(list[k + 1], key, other));
        }
        assert(rest[i - 1] == list[i]);
        lemma_first_assignment(rest, then, key, value, i - 1);
        if inside && !is_head(first) && line.len() > 0 && line[0] != '#' {
            match text::divided(line, '=') {
                Some((left, right)) => {
                    if !left.contains('[') {
                        assert(stands_in_section(list, inside, 0));
                        assert(!line_assigns(list[0], key, text::trimmed(right)));
                        let found = assignments(list, inside);
                        assert(found.skip(1) =~= assignments(rest, inside));
                        assert(found[0].0 == left);
                    }
                },
                None => {},
            }
        }
    }
}

proof fn lemma_no_assignment(list: Seq<Seq<char>>, inside: bool, key: Seq<char>)
    requires
        forall|k: int, other: Seq<char>|
            0 <= k < list.len() && stands_in_section(list, inside, k) ==> !(
            #[trigger] line_assigns(list[k], key, other)),
    ensures
        first_value(assignments(list, inside), key) is None,
    decreases list.len(),
{
    reveal_strlit("[Desktop Entry]");
    if list.len() > 0 {
        let first = list[0];
        let rest = list.skip(1);
        let line = text::trimmed(first);
        let then = line == "[Desktop Entry]"@ || (inside && !is_head(first));
        assert forall|k: int, other: Seq<char>|
            0 <= k < rest.len() && stands_in_section(rest, then, k) implies !(
        #[trigger] line_assigns(rest[k], key, other)) by {
            lemma_section(list, inside, k + 1);
            assert(rest[k] == list[k + 1]);
            assert(!line_assigns(list[k + 1], key, other));
        }
        lemma_no_assignment(rest, then, key);
        if inside && !is_head(first) && line.len() > 0 && line[0] != '#' {
            match text::divided(line, '=') {
                Some((left, right)) => {
                    if !left.contains('[') {
                        assert(stands_in_section(list, inside, 0));
                        assert(!line_assigns(list[0], key, text::trimmed(right)));
                        let found = assignments(list, inside);
                        assert(found.skip(1) =~= assignments(rest, inside));
                        assert(found[0].0 == left);
                    }
                },
                None => {},
            }
        }
    }
}

/// An entry holds under each key what the first line that assigns something to
/// it says, of those in the section `[Desktop Entry]`.
pub proof fn entries_hold_what_their_lines_say(
    entry: DesktopEntry,
    path: Seq<char>,
    contents: Seq<char>,
    key: Seq<char>,
    value: Seq<char>,
    i: int,
)
    requires
        is_entry_of(entry, path, contents),
        is_first_assignment(text::lines(contents), false, key, value, i),
    ensures
        key == "Name"@ ==> entry.name@ == value,
        key == "Icon"@ ==> entry.icon@ == value,
        key == "Exec"@ ==> entry.command@ == value,
        key == "TryExec"@ ==> entry.try_exec@ == value,
        key == "StartupWMClass"@ ==> entry.startup_wm_class@ == value,
        key == "X-Flatpak"@ ==> entry.flatpak_id@ == value,
        key == "Hidden"@ ==> (entry.hidden <==> text::lowered(value) == "true"@),
        key == "NoDisplay"@ ==> (entry.no_display <==> text::lowered(value) == "true"@),
        Some(entry.id@) == path::file_name(path),
        entry.path@ == path,
{
    lemma_first_assignment(text::lines(contents), false, key, value, i);
    reveal_strlit("true");
    assert(text::lowered("true"@) =~= "true"@);
}

/// Under a key to which no line of the section assigns something, an entry
/// holds nothing.
pub proof fn missing_keys_are_empty(
    entry: DesktopEntry,
    path: Seq<char>,
    contents: Seq<char>,
    key: Seq<char>,
)
    requires
        is_entry_of(entry, path, contents),
        forall|k: int, other: Seq<char>|
            0 <= k < text::lines(contents).len() && stands_in_section(
                text::lines(contents),
                false,
                k,
            ) ==> !(#[trigger] line_assigns(text::lines(contents)[k], key, other)),
    ensures
        key == "Name"@ ==> entry.name@.len() == 0,
        key == "Icon"@ ==> entry.icon@.len() == 0,
        key == "Exec"@ ==> entry.command@.len() == 0,
        key == "TryExec"@ ==> entry.try_exec@.len() == 0,
        key == "StartupWMClass"@ ==> entry.startup_wm_class@.len() == 0,
        key == "X-Flatpak"@ ==> entry.flatpak_id@.len() == 0,
        key == "Hidden"@ ==> !entry.hidden,
        key == "NoDisplay"@ ==> !entry.no_display,
        key == "Type"@ ==> !is_entry(path, contents),
{
    lemma_no_assignment(text::lines(contents), false, key);
}

/// A file is the entry of an application exactly where its first line about
/// the type says so.
pub proof fn only_applications_are_entries(
    path: Seq<char>,
    contents: Seq<char>,
    value: Seq<char>,
    i: int,
)
    requires
        path::file_name(path) is Some,
        is_first_assignment(text::lines(contents), false, "Type"@, value, i),
    ensures
        is_entry(path, contents) <==> value == "Application"@,
{
    lemma_first_assignment(text::lines(contents), false, "Type"@, value, i);
}

/// Reads a desktop file: its path and its text.
pub fn parse_entry(path: &str, contents: &str) -> (res: Option<DesktopEntry>)
    ensures
        match res {
            Some(entry) => is_entry(path@, contents@) && is_entry_of(entry, path@, contents@),
            None => !is_entry(path@, contents@),
        },
{
    let values = read_assignments(contents);
    match value_of(&values, "Type") {
        Some(kind) => {
            if !same(kind.as_str(), "Application") {
                return None;
            }
        },
        None => {
            return None;
        },
    }
    let chars = characters(path);
    let id = match name_of(chars.as_slice()) {
        Some(name) => from_characters(name.as_slice()),
        None => {
            return None;
        },
    };
    let hidden = value_of(&values, "Hidden");
    let no_display = value_of(&values, "NoDisplay");
    Some(
        DesktopEntry {
            id,
            path: path.to_owned(),
            name: value_or_empty(&values, "Name"),
            icon: value_or_empty(&values, "Icon"),
            command: value_or_empty(&values, "Exec"),
            try_exec: value_or_empty(&values, "TryExec"),
            startup_wm_class: value_or_empty(&values, "StartupWMClass"),
            flatpak_id: value_or_empty(&values, "X-Flatpak"),
            hidden: parse_bool(hidden.as_ref()),
            no_display: parse_bool(no_display.as_ref()),
        },
    )
}

// ---------------------------------------------------------------------
// Matching
// ---------------------------------------------------------------------

/// Whether the program of one of the entry's two commands has this name.
pub open spec fn runs(entry: DesktopEntry, name: Seq<char>) -> bool {
    program_name(entry.command@) == Some(name) || program_name(entry.try_exec@) == Some(name)
}

/// Whether the program of one of the entry's two commands has this name, in
/// any case.
pub open spec fn runs_ignoring_case(entry: DesktopEntry, name: Seq<char>) -> bool {
    ||| match program_name(entry.command@) {
        Some(program) => text::lowered(program) == text::lowered(name),
        None => false,
    }
    ||| match program_name(entry.try_exec@) {
        Some(program) => text::lowered(program) == text::lowered(name),
        None => false,
    }
}

/// Whether the entry is the one that the application itself names.
pub open spec fn is_requested(entry: DesktopEntry, metadata: AppMetadata) -> bool {
    match metadata.desktop {
        Some(value) => desktop_id(value@) == desktop_id(entry.id@),
        None => false,
    }
}

/// Whether the application's id is that of the entry or of its package.
pub open spec fn has_application_id(entry: DesktopEntry, metadata: AppMetadata) -> bool {
    match metadata.application_id {
        Some(value) => desktop_id(value@) == desktop_id(entry.id@) || text::lowered(value@)
            == text::lowered(entry.flatpak_id@),
        None => false,
    }
}

/// How well an entry matches, and by what. `executable` is the path of the
/// running program. A hidden entry matches only by the application's own
/// request.
pub open spec fn match_of(
    entry: DesktopEntry,
    metadata: AppMetadata,
    executable: Option<Seq<char>>,
) -> Option<(u16, Seq<char>)> {
    if is_requested(entry, metadata) {
        Some((1000u16, "application.desktop"@))
    } else if entry.hidden {
        None
    } else if has_application_id(entry, metadata) {
        Some((900u16, "application-id"@))
    } else if (match metadata.flatpak_id {
        Some(value) => text::lowered(value@) == text::lowered(entry.flatpak_id@),
        None => false,
    }) {
        Some((850u16, "flatpak-id"@))
    } else if (match metadata.process_binary {
        Some(value) => runs_ignoring_case(entry, value@),
        None => false,
    }) {
        Some((800u16, "process-binary"@))
    } else if (match executable {
        Some(program) => match lowered_file_name(program) {
            Some(name) => runs(entry, name),
            None => false,
        },
        None => false,
    }) {
        Some((750u16, "process-exe"@))
    } else if (match metadata.startup_wm_class {
        Some(value) => text::lowered(value@) == text::lowered(entry.startup_wm_class@),
        None => false,
    }) {
        Some((700u16, "startup-wm-class"@))
    } else if entry.startup_wm_class@.len() > 0 && text::lowered(metadata.application_name@)
        == text::lowered(entry.startup_wm_class@) {
        Some((650u16, "startup-wm-class"@))
    } else if metadata.application_name@.len() > 0 && simplified(metadata.application_name@)
        == simplified(entry.name@) {
        Some((100u16, "application-name"@))
    } else {
        None
    }
}

/// The score of a match.
pub open spec fn score_of(found: Option<(u16, Seq<char>)>) -> u16 {
    match found {
        Some((score, reason)) => score,
        None => 0,
    }
}

/// Whether a match of this score with this id goes before the other: a
/// higher score, or the same score and an id that precedes.
pub open spec fn outranks(score: u16, id: Seq<char>, other: u16, other_id: Seq<char>) -> bool {
    score > other || (score == other && text::precedes(id, other_id))
}

/// Whether the entry at `best` is the best match among the first `n`. Among
/// equal matches the last one counts.
pub open spec fn is_best_match(
    entries: Seq<DesktopEntry>,
    metadata: AppMetadata,
    executable: Option<Seq<char>>,
    best: int,
    n: int,
) -> bool {
    &&& 0 <= best < n
    &&& match_of(entries[best], metadata, executable) is Some
    &&& forall|j: int|
        0 <= j < best && match_of(#[trigger] entries[j], metadata, executable) is Some
            ==> !outranks(
            score_of(match_of(entries[j], metadata, executable)),
            entries[j].id@,
            score_of(match_of(entries[best], metadata, executable)),
            entries[best].id@,
        )
    &&& forall|j: int|
        best < j < n && match_of(#[trigger] entries[j], metadata, executable) is Some ==> outranks(
            score_of(match_of(entries[best], metadata, executable)),
            entries[best].id@,
            score_of(match_of(entries[j], metadata, executable)),
            entries[j].id@,
        )
}

fn runs_program(entry: &DesktopEntry, name: &str) -> (res: bool)
    ensures
        res == runs(*entry, name@),
{
    let first = executable_basename(entry.command.as_str());
    let second = executable_basename(entry.try_exec.as_str());
    text::holds(&first, name) || text::holds(&second, name)
}

fn runs_program_ignoring_case(entry: &DesktopEntry, name: &str) -> (res: bool)
    ensures
        res == runs_ignoring_case(*entry, name@),
{
    let by_command = match executable_basename(entry.command.as_str()) {
        Some(program) => same_ignoring_case(program.as_str(), name),
        None => false,
    };
    let by_try_exec = match executable_basename(entry.try_exec.as_str()) {
        Some(program) => same_ignoring_case(program.as_str(), name),
        None => false,
    };
    by_command || by_try_exec
}

fn same_id(left: &str, right: &str) -> (res: bool)
    ensures
        res == (desktop_id(left@) == desktop_id(right@)),
{
    normalize_desktop_id(left) == normalize_desktop_id(right)
}

/// How well an entry matches an application.
fn match_entry(entry: &DesktopEntry, metadata: &AppMetadata, executable: Option<&str>) -> (res:
    Option<(u16, &'static str)>)
    ensures
        match res {
            Some((score, reason)) => match_of(*entry, *metadata, text::str_of(executable)) == Some(
                (score, reason@),
            ),
            None => match_of(*entry, *metadata, text::str_of(executable)) is None,
        },
{
    let requested = match &metadata.desktop {
        Some(value) => same_id(value.as_str(), entry.id.as_str()),
        None => false,
    };
    if requested {
        return Some((1000, "application.desktop"));
    }
    if entry.hidden {
        return None;
    }
    if let Some(value) = &metadata.application_id {
        if same_id(value.as_str(), entry.id.as_str()) || same_ignoring_case(
            value.as_str(),
            entry.flatpak_id.as_str(),
        ) {
            return Some((900, "application-id"));
        }
    }
    if let Some(value) = &metadata.flatpak_id {
        if same_ignoring_case(value.as_str(), entry.flatpak_id.as_str()) {
            return Some((850, "flatpak-id"));
        }
    }
    if let Some(value) = &metadata.process_binary {
        if runs_program_ignoring_case(entry, value.as_str()) {
            return Some((800, "process-binary"));
        }
    }
    if let Some(program) = executable {
        let chars = characters(program);
        if let Some(name) = lower_file_name(chars.as_slice()) {
            if runs_program(entry, name.as_str()) {
                return Some((750, "process-exe"));
            }
        }
    }
    if let Some(value) = &metadata.startup_wm_class {
        if same_ignoring_case(value.as_str(), entry.startup_wm_class.as_str()) {
            return Some((700, "startup-wm-class"));
        }
    }
    if !entry.startup_wm_class.as_str().is_empty() && same_ignoring_case(
        metadata.application_name.as_str(),
        entry.startup_wm_class.as_str(),
    ) {
        return Some((650, "startup-wm-class"));
    }
    if !metadata.application_name.as_str().is_empty() && normalized(
        metadata.application_name.as_str(),
    ) == normalized(entry.name.as_str()) {
        return Some((100, "application-name"));
    }
    None
}

proof fn lemma_outranks(a: u16, ia: Seq<char>, b: u16, ib: Seq<char>, c: u16, ic: Seq<char>)
    requires
        !outranks(a, ia, b, ib),
        !outranks(b, ib, c, ic),
    ensures
        !outranks(a, ia, c, ic),
{
    if outranks(a, ia, c, ic) {
        text::lemma_precedes_total(ia, ib);
        text::lemma_precedes_total(ib, ic);
        text::lemma_precedes_irreflexive(ia);
        if text::precedes(ib, ia) && text::precedes(ic, ib) {
            text::lemma_precedes_transitive(ic, ib, ia);
        }
        if text::precedes(ia, ic) && text::precedes(ic, ia) {
            text::lemma_precedes_transitive(ia, ic, ia);
        }
    }
}

/// Whether this is the entry that matches the application best, with its
/// score and reason, or no entry matches and none is given.
pub open spec fn is_selection(
    entries: Seq<DesktopEntry>,
    metadata: AppMetadata,
    executable: Option<Seq<char>>,
    selected: Option<DesktopMatch>,
) -> bool {
    match selected {
        Some(found) => exists|i: int|
            {
                &&& #[trigger] is_best_match(
                    entries,
                    metadata,
                    executable,
                    i,
                    entries.len() as int,
                )
                &&& found.entry == entries[i]
                &&& Some((found.score, found.reason@)) == match_of(
                    entries[i],
                    metadata,
                    executable,
                )
            },
        None => forall|j: int|
            0 <= j < entries.len() ==> match_of(
                #[trigger] entries[j],
                metadata,
                executable,
            ) is None,
    }
}

/// Selects the entry that matches the application best.
pub fn select_entry(
    entries: &[DesktopEntry],
    metadata: &AppMetadata,
    executable: Option<&str>,
) -> (res: Option<DesktopMatch>)
    ensures
        is_selection(entries@, *metadata, text::str_of(executable), res),
{
    let ghost exe = text::str_of(executable);
    let mut best: Option<(usize, u16, &'static str)> = None;
    let mut i: usize = 0;
    while i < entries.len()
        invariant
            i <= entries@.len(),
            exe == text::str_of(executable),
            match best {
                Some((at, score, reason)) => {
                    &&& is_best_match(entries@, *metadata, exe, at as int, i as int)
                    &&& match_of(entries@[at as int], *metadata, exe) == Some((score, reason@))
                },
                None => forall|j: int|
                    0 <= j < i ==> match_of(#[trigger] entries@[j], *metadata, exe) is None,
            },
        decreases entries@.len() - i,
    {
        if let Some((score, reason)) = match_entry(&entries[i], metadata, executable) {
            match best {
                Some((at, held, held_reason)) => {
                    let keep = held > score || (held == score && is_before(
                        entries[at].id.as_str(),
                        entries[i].id.as_str(),
                    ));
                    if !keep {
                        proof {
                            assert forall|j: int|
                                0 <= j < i && match_of(#[trigger] entries@[j], *metadata, exe) is Some
                                implies !outranks(
                                score_of(match_of(entries@[j], *metadata, exe)),
                                entries@[j].id@,
                                score,
                                entries@[i as int].id@,
                            ) by {
                                let s = score_of(match_of(entries@[j], *metadata, exe));
                                if j < at {
                                    lemma_outranks(
                                        s,
                                        entries@[j].id@,
                                        held,
                                        entries@[at as int].id@,
                                        score,
                                        entries@[i as int].id@,
                                    );
                                } else if j > at {
                                    if outranks(s, entries@[j].id@, held, entries@[at as int].id@) {
                                        text::lemma_precedes_irreflexive(entries@[j].id@);
                                        if s == held {
                                            text::lemma_precedes_transitive(
                                                entries@[j].id@,
                                                entries@[at as int].id@,
                                                entries@[j].id@,
                                            );
                                        }
                                    }
                                    lemma_outranks(
                                        s,
                                        entries@[j].id@,
                                        held,
                                        entries@[at as int].id@,
                                        score,
                                        entries@[i as int].id@,
                                    );
                                }
                            }
                        }
                        best = Some((i, score, reason));
                    }
                },
                None => {
                    best = Some((i, score, reason));
                },
            }
        }
        i += 1;
    }
    match best {
        Some((at, score, reason)) => {
            assert(is_best_match(entries@, *metadata, exe, at as int, entries@.len() as int));
            Some(DesktopMatch { entry: entries[at].clone(), score, reason })
        },
        None => None,
    }
}

/// The entry that an application asks for itself wins over all others.
pub proof fn requested_entry_wins(
    entries: Seq<DesktopEntry>,
    metadata: AppMetadata,
    executable: Option<Seq<char>>,
    best: int,
    other: int,
)
    requires
        is_best_match(entries, metadata, executable, best, entries.len() as int),
        0 <= other < entries.len(),
        is_requested(entries[other], metadata),
    ensures
        is_requested(entries[best], metadata),
{
}

/// No entry is passed over for one that matches less well, and a hidden entry
/// is taken only where the application asks for it.
pub proof fn best_match_is_taken(
    entries: Seq<DesktopEntry>,
    metadata: AppMetadata,
    executable: Option<Seq<char>>,
    best: int,
    other: int,
)
    requires
        is_best_match(entries, metadata, executable, best, entries.len() as int),
        0 <= other < entries.len(),
    ensures
        score_of(match_of(entries[other], metadata, executable)) <= score_of(
            match_of(entries[best], metadata, executable),
        ),
        entries[best].hidden ==> is_requested(entries[best], metadata),
{
}

/// Whether an entry agrees with an application in one way. The ways go from
/// the strongest to the weakest: the application asks for the entry (0), it has
/// the entry's id (1), the Flatpak id (2), it runs the entry's program by the
/// name of the process (3) or by its file (4), it has the window class (5) or
/// the window class for a name (6), or only the same name (7). A hidden entry
/// agrees only where it is asked for.
pub open spec fn agrees(
    entry: DesktopEntry,
    metadata: AppMetadata,
    executable: Option<Seq<char>>,
    way: int,
) -> bool {
    if way == 0 {
        metadata.desktop is Some && desktop_id(metadata.desktop->0@) == desktop_id(entry.id@)
    } else if entry.hidden {
        false
    } else if way == 1 {
        metadata.application_id is Some && (desktop_id(metadata.application_id->0@) == desktop_id(
            entry.id@,
        ) || text::lowered(metadata.application_id->0@) == text::lowered(entry.flatpak_id@))
    } else if way == 2 {
        metadata.flatpak_id is Some && text::lowered(metadata.flatpak_id->0@) == text::lowered(
            entry.flatpak_id@,
        )
    } else if way == 3 {
        metadata.process_binary is Some && exists|command: Seq<char>|
            (command == entry.command@ || command == entry.try_exec@) && (
            #[trigger] program_name(command)) is Some && text::lowered(program_name(command)->0)
                == text::lowered(metadata.process_binary->0@)
    } else if way == 4 {
        executable is Some && lowered_file_name(executable->0) is Some && (program_name(
            entry.command@,
        ) == lowered_file_name(executable->0) || program_name(entry.try_exec@)
            == lowered_file_name(executable->0))
    } else if way == 5 {
        metadata.startup_wm_class is Some && text::lowered(metadata.startup_wm_class->0@)
            == text::lowered(entry.startup_wm_class@)
    } else if way == 6 {
        entry.startup_wm_class@.len() > 0 && text::lowered(metadata.application_name@)
            == text::lowered(entry.startup_wm_class@)
    } else if way == 7 {
        metadata.application_name@.len() > 0 && simplified(metadata.application_name@)
            == simplified(entry.name@)
    } else {
        false
    }
}

/// Whether this is the strongest way in which an entry agrees.
pub open spec fn agrees_best(
    entry: DesktopEntry,
    metadata: AppMetadata,
    executable: Option<Seq<char>>,
    way: int,
) -> bool {
    agrees(entry, metadata, executable, way) && forall|stronger: int|
        0 <= stronger < way ==> !(#[trigger] agrees(entry, metadata, executable, stronger))
}

/// The score of each way of agreeing, and what it is called.
pub open spec fn way_score(way: int) -> (u16, Seq<char>) {
    if way == 0 {
        (1000u16, "application.desktop"@)
    } else if way == 1 {
        (900u16, "application-id"@)
    } else if way == 2 {
        (850u16, "flatpak-id"@)
    } else if way == 3 {
        (800u16, "process-binary"@)
    } else if way == 4 {
        (750u16, "process-exe"@)
    } else if way == 5 {
        (700u16, "startup-wm-class"@)
    } else if way == 6 {
        (650u16, "startup-wm-class"@)
    } else {
        (100u16, "application-name"@)
    }
}

proof fn lemma_ways(
    entry: DesktopEntry,
    metadata: AppMetadata,
    executable: Option<Seq<char>>,
) -> (way: int)
    ensures
        match match_of(entry, metadata, executable) {
            Some(found) => 0 <= way < 8 && agrees_best(entry, metadata, executable, way) && found
                == way_score(way),
            None => forall|any: int| !(#[trigger] agrees(entry, metadata, executable, any)),
        },
{
    if metadata.process_binary is Some && runs_ignoring_case(entry, metadata.process_binary->0@) {
        assert(program_name(entry.command@) is Some || program_name(entry.try_exec@) is Some);
    }
    match match_of(entry, metadata, executable) {
        Some(found) => {
            let way: int = if found.0 == 1000 {
                0
            } else if found.0 == 900 {
                1
            } else if found.0 == 850 {
                2
            } else if found.0 == 800 {
                3
            } else if found.0 == 750 {
                4
            } else if found.0 == 700 {
                5
            } else if found.0 == 650 {
                6
            } else {
                7
            };
            assert(agrees(entry, metadata, executable, way));
            way
        },
        None => 0,
    }
}

/// Each way of agreeing beats all that are weaker: where any entry agrees in
/// some way, one is selected, and it agrees in that way or a stronger one. Of
/// entries that agree in the same way at best, none has an id that precedes
/// that of the selected one.
pub proof fn stronger_evidence_wins(
    entries: Seq<DesktopEntry>,
    metadata: AppMetadata,
    executable: Option<Seq<char>>,
    selected: Option<DesktopMatch>,
    other: int,
    way: int,
)
    requires
        is_selection(entries, metadata, executable, selected),
        0 <= other < entries.len(),
        0 <= way < 8,
        agrees(entries[other], metadata, executable, way),
    ensures
        selected is Some,
        exists|stronger: int|
            0 <= stronger <= way && #[trigger] agrees(
                selected->0.entry,
                metadata,
                executable,
                stronger,
            ),
        agrees_best(selected->0.entry, metadata, executable, way) && agrees_best(
            entries[other],
            metadata,
            executable,
            way,
        ) ==> !text::precedes(entries[other].id@, selected->0.entry.id@),
{
    let of_other = lemma_ways(entries[other], metadata, executable);
    assert(match_of(entries[other], metadata, executable) is Some);
    let found = selected->0;
    let i = choose|i: int|
        {
            &&& #[trigger] is_best_match(entries, metadata, executable, i, entries.len() as int)
            &&& found.entry == entries[i]
            &&& Some((found.score, found.reason@)) == match_of(entries[i], metadata, executable)
        };
    let best = lemma_ways(entries[i], metadata, executable);
    assert(of_other <= way) by {
        assert(agrees(entries[other], metadata, executable, way));
    }
    assert(best <= of_other);
    assert(agrees(found.entry, metadata, executable, best));
    if other == i {
        text::lemma_precedes_irreflexive(found.entry.id@);
    }
    if agrees_best(found.entry, metadata, executable, way) && agrees_best(
        entries[other],
        metadata,
        executable,
        way,
    ) {
        assert(best == way && of_other == way);
        if i < other && text::precedes(entries[other].id@, found.entry.id@) {
            text::lemma_precedes_transitive(
                found.entry.id@,
                entries[other].id@,
                found.entry.id@,
            );
            text::lemma_precedes_irreflexive(found.entry.id@);
        }
    }
}

/// The entry that is selected is one of those given and agrees with the
/// application; its score and reason are those of the strongest way in which
/// it does.
pub proof fn selection_is_justified(
    entries: Seq<DesktopEntry>,
    metadata: AppMetadata,
    executable: Option<Seq<char>>,
    found: DesktopMatch,
)
    requires
        is_selection(entries, metadata, executable, Some(found)),
    ensures
        entries.contains(found.entry),
        exists|way: int|
            0 <= way < 8 && #[trigger] agrees_best(found.entry, metadata, executable, way) && (
            found.score,
            found.reason@,
        ) == way_score(way),
{
    let i = choose|i: int|
        {
            &&& #[trigger] is_best_match(entries, metadata, executable, i, entries.len() as int)
            &&& found.entry == entries[i]
            &&& Some((found.score, found.reason@)) == match_of(entries[i], metadata, executable)
        };
    let way = lemma_ways(entries[i], metadata, executable);
    assert(agrees_best(found.entry, metadata, executable, way));
}

/// What is selected does not depend on the order of the entries, where no two
/// of them have the same id.
pub proof fn selection_does_not_depend_on_the_order(
    entries: Seq<DesktopEntry>,
    reordered: Seq<DesktopEntry>,
    metadata: AppMetadata,
    executable: Option<Seq<char>>,
    first: Option<DesktopMatch>,
    second: Option<DesktopMatch>,
)
    requires
        entries.to_multiset() == reordered.to_multiset(),
        forall|i: int, j: int|
            0 <= i < j < entries.len() ==> (#[trigger] entries[i]).id@ != (
            #[trigger] entries[j]).id@,
        is_selection(entries, metadata, executable, first),
        is_selection(reordered, metadata, executable, second),
    ensures
        match (first, second) {
            (Some(a), Some(b)) => a.entry == b.entry && a.score == b.score && a.reason@ == b.reason@,
            (None, None) => true,
            _ => false,
        },
{
    broadcast use vstd::seq_lib::group_to_multiset_ensures;

    assert forall|i: int| 0 <= i < entries.len() implies reordered.contains(
        #[trigger] entries[i],
    ) by {
        assert(entries.to_multiset().count(entries[i]) > 0);
    }
    assert forall|i: int| 0 <= i < reordered.len() implies entries.contains(
        #[trigger] reordered[i],
    ) by {
        assert(reordered.to_multiset().count(reordered[i]) > 0);
    }
    match (first, second) {
        (Some(a), Some(b)) => {
            let i = choose|i: int|
                {
                    &&& #[trigger] is_best_match(
                        entries,
                        metadata,
                        executable,
                        i,
                        entries.len() as int,
                    )
                    &&& a.entry == entries[i]
                    &&& Some((a.score, a.reason@)) == match_of(entries[i], metadata, executable)
                };
            let k = choose|k: int|
                {
                    &&& #[trigger] is_best_match(
                        reordered,
                        metadata,
                        executable,
                        k,
                        reordered.len() as int,
                    )
                    &&& b.entry == reordered[k]
                    &&& Some((b.score, b.reason@)) == match_of(reordered[k], metadata, executable)
                };
            assert(entries.contains(reordered[k]));
            assert(reordered.contains(entries[i]));
            let at = entries.index_of(reordered[k]);
            let back = reordered.index_of(entries[i]);
            if at != i {
                text::lemma_precedes_total(a.entry.id@, b.entry.id@);
                text::lemma_precedes_irreflexive(a.entry.id@);
                if text::precedes(a.entry.id@, b.entry.id@) && text::precedes(
                    b.entry.id@,
                    a.entry.id@,
                ) {
                    text::lemma_precedes_transitive(a.entry.id@, b.entry.id@, a.entry.id@);
                }
                assert(entries[at] == b.entry);
                assert(reordered[back] == a.entry);
            }
        },
        (Some(a), None) => {
            let i = choose|i: int|
                #[trigger] is_best_match(entries, metadata, executable, i, entries.len() as int);
            assert(reordered.contains(entries[i]));
            assert(match_of(
                reordered[reordered.index_of(entries[i])],
                metadata,
                executable,
            ) is None);
        },
        (None, Some(b)) => {
            let k = choose|k: int|
                #[trigger] is_best_match(
                    reordered,
                    metadata,
                    executable,
                    k,
                    reordered.len() as int,
                );
            assert(entries.contains(reordered[k]));
            assert(match_of(
                entries[entries.index_of(reordered[k])],
                metadata,
                executable,
            ) is None);
        },
        (None, None) => {},
    }
}

// ---------------------------------------------------------------------
// Steam
// ---------------------------------------------------------------------

/// How well an entry matches a Steam application, and by what: by its own
/// id, or by an argument that starts the application.
pub open spec fn steam_match_of(entry: DesktopEntry, app_id: Seq<char>) -> Option<
    (u16, Seq<char>),
> {
    if desktop_id(entry.id@) == desktop_id("steam_app_"@ + app_id) {
        Some((1200u16, "steam-desktop-id"@))
    } else if starts_game(entry.command@, app_id) {
        Some((1150u16, "steam-rungameid"@))
    } else {
        None
    }
}

/// The quotation marks that may stand around an argument.
pub open spec fn quotes() -> Seq<char> {
    seq!['\'', '"']
}

/// Whether an argument of the command is the address that starts the game.
pub open spec fn starts_game(command: Seq<char>, app_id: Seq<char>) -> bool {
    exists|i: int|
        0 <= i < text::words(command).len() && text::stripped(
            #[trigger] text::words(command)[i],
            quotes(),
        ) == "steam://rungameid/"@ + app_id
}

/// Whether the entry at `best` is the best match among the first `n`. Among
/// equal matches the last one counts.
pub open spec fn is_best_steam_match(
    entries: Seq<DesktopEntry>,
    app_id: Seq<char>,
    best: int,
    n: int,
) -> bool {
    &&& 0 <= best < n
    &&& steam_match_of(entries[best], app_id) is Some
    &&& forall|j: int|
        0 <= j < best && steam_match_of(#[trigger] entries[j], app_id) is Some ==> score_of(
            steam_match_of(entries[j], app_id),
        ) <= score_of(steam_match_of(entries[best], app_id))
    &&& forall|j: int|
        best < j < n && steam_match_of(#[trigger] entries[j], app_id) is Some ==> score_of(
            steam_match_of(entries[j], app_id),
        ) < score_of(steam_match_of(entries[best], app_id))
}

fn has_game_argument(command: &str, app_id: &str) -> (res: bool)
    ensures
        res == starts_game(command@, app_id@),
{
    let address = join("steam://rungameid/", app_id);
    let chars = characters(command);
    let list = split_words(chars.as_slice());
    let marks: [char; 2] = ['\'', '"'];
    assert(marks@ =~= quotes());
    let ghost all = text::words(command@);
    let mut i: usize = 0;
    while i < list.len()
        invariant
            i <= list@.len(),
            all == text::pieces(list@),
            all == text::words(command@),
            marks@ == quotes(),
            address@ == "steam://rungameid/"@ + app_id@,
            forall|k: int|
                0 <= k < i ==> text::stripped(#[trigger] all[k], quotes()) != address@,
        decreases list@.len() - i,
    {
        let argument = from_characters(strip(list[i].as_slice(), marks.as_slice()));
        assert(all[i as int] == list@[i as int]@);
        if argument == address {
            return true;
        }
        i += 1;
    }
    false
}

/// Whether this is the entry that matches a Steam application best, with its
/// score and reason, or no entry matches and none is given.
pub open spec fn is_steam_selection(
    entries: Seq<DesktopEntry>,
    app_id: Seq<char>,
    selected: Option<DesktopMatch>,
) -> bool {
    match selected {
        Some(found) => exists|i: int|
            {
                &&& #[trigger] is_best_steam_match(entries, app_id, i, entries.len() as int)
                &&& found.entry == entries[i]
                &&& Some((found.score, found.reason@)) == steam_match_of(entries[i], app_id)
            },
        None => forall|j: int|
            0 <= j < entries.len() ==> steam_match_of(#[trigger] entries[j], app_id) is None,
    }
}

/// Selects the entry of a Steam application.
pub fn select_steam_entry(entries: &[DesktopEntry], app_id: &str) -> (res: Option<DesktopMatch>)
    ensures
        is_steam_selection(entries@, app_id@, res),
{
    let own = join("steam_app_", app_id);
    let exact_id = normalize_desktop_id(own.as_str());
    let mut best: Option<(usize, u16, &'static str)> = None;
    let mut i: usize = 0;
    while i < entries.len()
        invariant
            i <= entries@.len(),
            exact_id@ == desktop_id("steam_app_"@ + app_id@),
            match best {
                Some((at, score, reason)) => {
                    &&& is_best_steam_match(entries@, app_id@, at as int, i as int)
                    &&& steam_match_of(entries@[at as int], app_id@) == Some((score, reason@))
                },
                None => forall|j: int|
                    0 <= j < i ==> steam_match_of(#[trigger] entries@[j], app_id@) is None,
            },
        decreases entries@.len() - i,
    {
        let found: Option<(u16, &'static str)> = if normalize_desktop_id(entries[i].id.as_str())
            == exact_id {
            Some((1200, "steam-desktop-id"))
        } else if has_game_argument(entries[i].command.as_str(), app_id) {
            Some((1150, "steam-rungameid"))
        } else {
            None
        };
        if let Some((score, reason)) = found {
            match best {
                Some((at, held, held_reason)) => {
                    if held <= score {
                        best = Some((i, score, reason));
                    }
                },
                None => {
                    best = Some((i, score, reason));
                },
            }
        }
        i += 1;
    }
    match best {
        Some((at, score, reason)) => {
            assert(is_best_steam_match(entries@, app_id@, at as int, entries@.len() as int));
            Some(DesktopMatch { entry: entries[at].clone(), score, reason })
        },
        None => None,
    }
}

/// The entry of a Steam application is its own or starts exactly it; its own
/// wins over one that only starts it.
pub proof fn steam_entry_is_exact(
    entries: Seq<DesktopEntry>,
    app_id: Seq<char>,
    best: int,
    other: int,
)
    requires
        is_best_steam_match(entries, app_id, best, entries.len() as int),
        0 <= other < entries.len(),
    ensures
        desktop_id(entries[best].id@) == desktop_id("steam_app_"@ + app_id) || starts_game(
            entries[best].command@,
            app_id,
        ),
        desktop_id(entries[other].id@) == desktop_id("steam_app_"@ + app_id) ==> desktop_id(
            entries[best].id@,
        ) == desktop_id("steam_app_"@ + app_id),
{
}

/// An entry is selected for a Steam application exactly where one has its id or
/// starts it. It is one of those given; one with the id goes before one that
/// only starts it, and of entries that match alike the last one is selected.
pub proof fn steam_selection_is_the_best(
    entries: Seq<DesktopEntry>,
    app_id: Seq<char>,
    selected: Option<DesktopMatch>,
    other: int,
)
    requires
        is_steam_selection(entries, app_id, selected),
        0 <= other < entries.len(),
    ensures
        ({
            let own = desktop_id("steam_app_"@ + app_id);
            let is_own = desktop_id(entries[other].id@) == own;
            &&& is_own || starts_game(entries[other].command@, app_id) ==> selected is Some
            &&& selected matches Some(found) ==> {
                let has_id = desktop_id(found.entry.id@) == own;
                &&& entries.contains(found.entry)
                &&& has_id || starts_game(found.entry.command@, app_id)
                &&& is_own ==> has_id
                &&& has_id ==> found.score == 1200 && found.reason@ == "steam-desktop-id"@
                &&& !has_id ==> found.score == 1150 && found.reason@ == "steam-rungameid"@
                &&& exists|i: int|
                    {
                        &&& 0 <= i < entries.len()
                        &&& found.entry == #[trigger] entries[i]
                        &&& is_own == has_id && (is_own || starts_game(
                            entries[other].command@,
                            app_id,
                        )) ==> other <= i
                    }
            }
        }),
{
    if let Some(found) = selected {
        let i = choose|i: int|
            {
                &&& #[trigger] is_best_steam_match(entries, app_id, i, entries.len() as int)
                &&& found.entry == entries[i]
                &&& Some((found.score, found.reason@)) == steam_match_of(entries[i], app_id)
            };
        assert(entries.contains(found.entry));
        let matched = steam_match_of(entries[other], app_id);
    }
}

// ---------------------------------------------------------------------
// Directories
// ---------------------------------------------------------------------

/// The paths without those whose components came before.
pub open spec fn distinct_paths(list: Seq<Seq<char>>) -> Seq<Seq<char>>
    decreases list.len(),
{
    if list.len() == 0 {
        list
    } else {
        let kept = distinct_paths(list.drop_last());
        if holds_path(kept, list.last()) {
            kept
        } else {
            kept.push(list.last())
        }
    }
}

/// Whether the list holds a path with the same components.
pub open spec fn holds_path(list: Seq<Seq<char>>, path: Seq<char>) -> bool {
    exists|i: int|
        0 <= i < list.len() && path::components(#[trigger] list[i]) == path::components(path)
}

fn same_path(left: &str, right: &str) -> (res: bool)
    ensures
        res == (path::components(left@) == path::components(right@)),
{
    let res = path::is_under(left, right) && path::is_under(right, left);
    proof {
        let l = path::components(left@);
        let r = path::components(right@);
        if res {
            assert(l.take(r.len() as int) =~= l);
        }
        if l == r {
            assert(l.take(r.len() as int) =~= r);
        }
    }
    res
}

/// Removes the paths that came before.
pub fn deduplicate(paths: Vec<String>) -> (res: Vec<String>)
    ensures
        text::texts(res@) == distinct_paths(text::texts(paths@)),
{
    let ghost all = text::texts(paths@);
    let mut out: Vec<String> = Vec::new();
    let mut i: usize = 0;
    assert(text::texts(out@) =~= distinct_paths(all.take(0)));
    while i < paths.len()
        invariant
            i <= paths@.len(),
            all == text::texts(paths@),
            text::texts(out@) == distinct_paths(all.take(i as int)),
        decreases paths@.len() - i,
    {
        let ghost kept = text::texts(out@);
        let mut seen = false;
        let mut k: usize = 0;
        while k < out.len()
            invariant
                k <= out@.len(),
                i < paths@.len(),
                all == text::texts(paths@),
                kept == text::texts(out@),
                seen == exists|j: int|
                    0 <= j < k && path::components(#[trigger] kept[j]) == path::components(
                        all[i as int],
                    ),
            decreases out@.len() - k,
        {
            assert(kept[k as int] == out@[k as int]@);
            assert(all[i as int] == paths@[i as int]@);
            if same_path(out[k].as_str(), paths[i].as_str()) {
                seen = true;
            }
            k += 1;
        }
        assert(all.take(i + 1).drop_last() =~= all.take(i as int));
        if !seen {
            let path = paths[i].clone();
            out.push(path);
            assert(text::texts(out@) =~= kept.push(path@));
        }
        i += 1;
    }
    assert(all.take(i as int) =~= all);
    out
}

/// Of the paths with the same components exactly one is left, no path is lost
/// but for such repetitions, and all that is left was there.
#[verifier::rlimit(40)]
#[verifier::spinoff_prover]
pub proof fn paths_are_left_once(list: Seq<Seq<char>>)
    ensures
        forall|i: int| 0 <= i < list.len() ==> holds_path(distinct_paths(list), #[trigger] list[i]),
        forall|i: int|
            0 <= i < distinct_paths(list).len() ==> list.contains(
                #[trigger] distinct_paths(list)[i],
            ),
        forall|i: int, j: int|
            0 <= i < j < distinct_paths(list).len() ==> path::components(
                #[trigger] distinct_paths(list)[i],
            ) != path::components(#[trigger] distinct_paths(list)[j]),
        list.len() > 0 ==> distinct_paths(list).len() > 0 && distinct_paths(list)[0] == list[0],
    decreases list.len(),
{
    if list.len() > 0 {
        let before = list.drop_last();
        let kept = distinct_paths(before);
        let all = distinct_paths(list);
        paths_are_left_once(before);
        assert forall|i: int| 0 <= i < list.len() implies holds_path(all, #[trigger] list[i]) by {
            if i < before.len() {
                assert(before[i] == list[i]);
                let k = choose|k: int|
                    0 <= k < kept.len() && path::components(#[trigger] kept[k])
                        == path::components(list[i]);
                assert(all[k] == kept[k]);
            } else if holds_path(kept, list.last()) {
                let k = choose|k: int|
                    0 <= k < kept.len() && path::components(#[trigger] kept[k])
                        == path::components(list.last());
                assert(all[k] == kept[k]);
            } else {
                assert(all[kept.len() as int] == list.last());
            }
        }
        assert forall|i: int| 0 <= i < all.len() implies list.contains(#[trigger] all[i]) by {
            if i < kept.len() {
                assert(before.contains(kept[i]));
                let k = choose|k: int| 0 <= k < before.len() && before[k] == kept[i];
                assert(list[k] == all[i]);
            } else {
                assert(list[list.len() - 1] == all[i]);
            }
        }
        assert forall|i: int, j: int| 0 <= i < j < all.len() implies path::components(
            #[trigger] all[i],
        ) != path::components(#[trigger] all[j]) by {
            assert(all[i] == kept[i]);
            if j < kept.len() {
                assert(all[j] == kept[j]);
            }
        }
        if before.len() > 0 {
            assert(before[0] == list[0]);
        } else {
            assert(kept =~= Seq::empty());
        }
    }
}

/// What stands in a variable that lists directories, or the usual ones.
pub open spec fn data_directories(data_dirs: Option<Seq<char>>) -> Seq<Seq<char>> {
    text::split_at_char(
        match data_dirs {
            Some(value) => value,
            None => "/usr/local/share:/usr/share"@,
        },
        ':',
    )
}

/// The directories of the list with a name behind each.
pub open spec fn each_joined(list: Seq<Seq<char>>, name: Seq<char>) -> Seq<Seq<char>> {
    list.map_values(|directory: Seq<char>| path::joined(directory, name))
}

/// The directories that hold desktop files, with repetitions.
pub open spec fn application_places(
    data_home: Option<Seq<char>>,
    data_dirs: Option<Seq<char>>,
    home: Option<Seq<char>>,
) -> Seq<Seq<char>> {
    let first = match data_home {
        Some(value) => seq![path::joined(value, "applications"@)],
        None => Seq::empty(),
    };
    let own = match home {
        Some(value) => seq![
            path::joined(value, ".local/share/applications"@),
            path::joined(value, ".local/share/flatpak/exports/share/applications"@),
        ],
        None => Seq::empty(),
    };
    first + each_joined(data_directories(data_dirs), "applications"@) + own + seq![
        "/usr/local/share/applications"@,
        "/usr/share/applications"@,
        "/var/lib/flatpak/exports/share/applications"@,
    ]
}

/// The listed directories with a name behind each.
pub fn listed_directories(data_dirs: Option<&str>, name: &str) -> (res: Vec<String>)
    ensures
        text::texts(res@) == each_joined(data_directories(text::str_of(data_dirs)), name@),
{
    let chars = match data_dirs {
        Some(value) => characters(value),
        None => characters("/usr/local/share:/usr/share"),
    };
    let list = text::split(chars.as_slice(), ':');
    let ghost all = data_directories(text::str_of(data_dirs));
    assert(all == text::pieces(list@));
    let mut out: Vec<String> = Vec::new();
    let mut i: usize = 0;
    while i < list.len()
        invariant
            i <= list@.len(),
            all == text::pieces(list@),
            text::texts(out@) == each_joined(all, name@).take(i as int),
        decreases list@.len() - i,
    {
        let ghost before = text::texts(out@);
        let directory = from_characters(list[i].as_slice());
        let path = path::join_path(directory.as_str(), name);
        out.push(path);
        assert(text::texts(out@) =~= before.push(path@));
        assert(each_joined(all, name@)[i as int] == path::joined(all[i as int], name@));
        i += 1;
        assert(text::texts(out@) =~= each_joined(all, name@).take(i as int));
    }
    assert(each_joined(all, name@).take(i as int) =~= each_joined(all, name@));
    out
}

/// The directories that hold desktop files, from the values of
/// `XDG_DATA_HOME`, `XDG_DATA_DIRS` and `HOME`.
pub fn application_dirs(
    data_home: Option<&str>,
    data_dirs: Option<&str>,
    home: Option<&str>,
) -> (res: Vec<String>)
    ensures
        text::texts(res@) == distinct_paths(
            application_places(
                text::str_of(data_home),
                text::str_of(data_dirs),
                text::str_of(home),
            ),
        ),
{
    let ghost first = match text::str_of(data_home) {
        Some(value) => seq![path::joined(value, "applications"@)],
        None => Seq::empty(),
    };
    let ghost own = match text::str_of(home) {
        Some(value) => seq![
            path::joined(value, ".local/share/applications"@),
            path::joined(value, ".local/share/flatpak/exports/share/applications"@),
        ],
        None => Seq::empty(),
    };
    let mut out: Vec<String> = Vec::new();
    if let Some(value) = data_home {
        out.push(path::join_path(value, "applications"));
    }
    assert(text::texts(out@) =~= first);
    let mut listed = listed_directories(data_dirs, "applications");
    let ghost middle = text::texts(listed@);
    let ghost head = out@;
    let ghost tail = listed@;
    out.append(&mut listed);
    assert(out@ =~= head + tail);
    assert(text::texts(out@) =~= first + middle);
    if let Some(value) = home {
        out.push(path::join_path(value, ".local/share/applications"));
        out.push(path::join_path(value, ".local/share/flatpak/exports/share/applications"));
    }
    assert(text::texts(out@) =~= first + middle + own);
    out.push("/usr/local/share/applications".to_owned());
    out.push("/usr/share/applications".to_owned());
    out.push("/var/lib/flatpak/exports/share/applications".to_owned());
    assert(text::texts(out@) =~= first + middle + own + seq![
        "/usr/local/share/applications"@,
        "/usr/share/applications"@,
        "/var/lib/flatpak/exports/share/applications"@,
    ]);
    deduplicate(out)
}

/// A file in one of those directories. `contents` is its text, where it could
/// be read.
#[derive(Debug)]
pub struct DesktopFile {
    pub name: String,
    pub path: String,
    pub contents: Option<String>,
}

impl Sortable for DesktopFile {
    open spec fn goes_before(&self, other: &Self) -> bool {
        text::precedes(self.name@, other.name@)
    }

    fn is_before(&self, other: &Self) -> (res: bool) {
        is_before(self.name.as_str(), other.name.as_str())
    }

    proof fn asymmetric(a: &Self, b: &Self) {
        if text::precedes(b.name@, a.name@) {
            text::lemma_precedes_transitive(a.name@, b.name@, a.name@);
            text::lemma_precedes_irreflexive(a.name@);
        }
    }

    proof fn negatively_transitive(a: &Self, b: &Self, c: &Self) {
        text::lemma_precedes_total(a.name@, b.name@);
        text::lemma_precedes_total(b.name@, c.name@);
        if text::precedes(a.name@, c.name@) {
            if text::precedes(c.name@, b.name@) && text::precedes(b.name@, a.name@) {
                text::lemma_precedes_transitive(c.name@, b.name@, a.name@);
            }
            if text::precedes(c.name@, a.name@) {
                text::lemma_precedes_transitive(a.name@, c.name@, a.name@);
            }
            text::lemma_precedes_irreflexive(a.name@);
        }
    }
}

/// Whether a file name is that of a desktop file.
pub open spec fn is_desktop_name(name: Seq<char>) -> bool {
    path::extension(name) == Some("desktop"@)
}

/// The desktop files that give an entry, as path and text, in order. Of the
/// files with one name, in any case, only the first counts, even where it
/// gives no entry. `seen` holds the names that came before.
pub open spec fn accepted(files: Seq<DesktopFile>, seen: Seq<Seq<char>>) -> Seq<
    (Seq<char>, Seq<char>),
>
    decreases files.len(),
{
    if files.len() == 0 {
        Seq::empty()
    } else {
        let file = files[0];
        let rest = files.skip(1);
        let id = text::lowered(file.name@);
        if !is_desktop_name(file.name@) || seen.contains(id) {
            accepted(rest, seen)
        } else {
            match file.contents {
                Some(contents) => if is_entry(file.path@, contents@) {
                    seq![(file.path@, contents@)] + accepted(rest, seen.push(id))
                } else {
                    accepted(rest, seen.push(id))
                },
                None => accepted(rest, seen.push(id)),
            }
        }
    }
}

/// Whether the entries are those of the given files, one for each.
pub open spec fn are_entries_of(entries: Seq<DesktopEntry>, files: Seq<(Seq<char>, Seq<char>)>) -> bool {
    &&& entries.len() == files.len()
    &&& forall|i: int|
        0 <= i < entries.len() ==> is_entry_of(#[trigger] entries[i], files[i].0, files[i].1)
}

/// Whether a file of the list counts: it is a desktop file, and none before it
/// is one of the same name, in any case.
pub open spec fn is_first_of_its_name(files: Seq<DesktopFile>, i: int) -> bool {
    &&& 0 <= i < files.len()
    &&& is_desktop_name(files[i].name@)
    &&& forall|k: int|
        0 <= k < i && is_desktop_name((#[trigger] files[k]).name@) ==> text::lowered(files[k].name@)
            != text::lowered(files[i].name@)
}

proof fn lemma_accepted(
    files: Seq<DesktopFile>,
    seen: Seq<Seq<char>>,
    path: Seq<char>,
    contents: Seq<char>,
)
    ensures
        accepted(files, seen).contains((path, contents)) <==> exists|i: int| #[trigger]
            is_first_of_its_name(files, i) && !seen.contains(text::lowered(files[i].name@))
                && files[i].path@ == path && text::text_of(files[i].contents) == Some(contents)
                && is_entry(path, contents),
    decreases files.len(),
{
    if files.len() > 0 {
        let file = files[0];
        let rest = files.skip(1);
        let id = text::lowered(file.name@);
        let all = accepted(files, seen);
        let counts = is_desktop_name(file.name@) && !seen.contains(id);
        let then = if counts {
            seen.push(id)
        } else {
            seen
        };
        lemma_accepted(rest, then, path, contents);
        crate::audio::lemma_contains_push(seen, id);
        let tail = accepted(rest, then);
        assert(is_first_of_its_name(files, 0) <==> is_desktop_name(file.name@));
        if all.contains((path, contents)) {
            let k = choose|k: int| 0 <= k < all.len() && all[k] == (path, contents);
            if counts && file.contents is Some && is_entry(file.path@, file.contents->0@) {
                if k == 0 {
                    assert(is_first_of_its_name(files, 0));
                } else {
                    assert(tail[k - 1] == (path, contents));
                    assert(tail.contains((path, contents)));
                }
            } else {
                assert(tail.contains((path, contents)));
            }
            if tail.contains((path, contents)) {
                let i = choose|i: int| #[trigger]
                    is_first_of_its_name(rest, i) && !then.contains(text::lowered(rest[i].name@))
                        && rest[i].path@ == path && text::text_of(rest[i].contents) == Some(
                        contents,
                    ) && is_entry(path, contents);
                assert(files[i + 1] == rest[i]);
                assert forall|k: int|
                    0 <= k < i + 1 && is_desktop_name((#[trigger] files[k]).name@) implies
                    text::lowered(files[k].name@) != text::lowered(files[i + 1].name@) by {
                    if k > 0 {
                        assert(rest[k - 1] == files[k]);
                    }
                }
                assert(is_first_of_its_name(files, i + 1));
            }
        }
        if exists|i: int| #[trigger]
            is_first_of_its_name(files, i) && !seen.contains(text::lowered(files[i].name@))
                && files[i].path@ == path && text::text_of(files[i].contents) == Some(contents)
                && is_entry(path, contents) {
            let i = choose|i: int| #[trigger]
                is_first_of_its_name(files, i) && !seen.contains(text::lowered(files[i].name@))
                    && files[i].path@ == path && text::text_of(files[i].contents) == Some(
                    contents,
                ) && is_entry(path, contents);
            if i == 0 {
                assert(all[0] == (path, contents));
            } else {
                assert(rest[i - 1] == files[i]);
                assert forall|k: int|
                    0 <= k < i - 1 && is_desktop_name((#[trigger] rest[k]).name@) implies
                    text::lowered(rest[k].name@) != text::lowered(rest[i - 1].name@) by {
                    assert(rest[k] == files[k + 1]);
                }
                assert(is_first_of_its_name(rest, i - 1));
                assert(files[0] == file);
                assert(tail.contains((path, contents)));
                let k = choose|k: int| 0 <= k < tail.len() && tail[k] == (path, contents);
                if counts && file.contents is Some && is_entry(file.path@, file.contents->0@) {
                    assert(all[k + 1] == tail[k]);
                } else {
                    assert(all[k] == tail[k]);
                }
            }
        }
    }
}

/// Of the desktop files with one name, in any case, the first counts, and it
/// gives an entry exactly where it can be read and is that of an application.
pub proof fn first_file_of_a_name_counts(
    files: Seq<DesktopFile>,
    entries: Seq<DesktopEntry>,
    i: int,
)
    requires
        are_entries_of(entries, accepted(files, Seq::empty())),
        is_first_of_its_name(files, i),
        files[i].contents is Some,
        is_entry(files[i].path@, files[i].contents->0@),
    ensures
        exists|k: int|
            0 <= k < entries.len() && is_entry_of(
                #[trigger] entries[k],
                files[i].path@,
                files[i].contents->0@,
            ),
{
    let all = accepted(files, Seq::empty());
    let wanted = (files[i].path@, files[i].contents->0@);
    lemma_accepted(files, Seq::empty(), wanted.0, wanted.1);
    assert(all.contains(wanted));
    let k = choose|k: int| 0 <= k < all.len() && all[k] == wanted;
    assert(is_entry_of(entries[k], all[k].0, all[k].1));
}

/// Every entry is that of a file that counts.
pub proof fn entries_come_from_files_that_count(
    files: Seq<DesktopFile>,
    entries: Seq<DesktopEntry>,
    k: int,
)
    requires
        are_entries_of(entries, accepted(files, Seq::empty())),
        0 <= k < entries.len(),
    ensures
        exists|i: int| #[trigger]
            is_first_of_its_name(files, i) && files[i].contents is Some && is_entry(
                files[i].path@,
                files[i].contents->0@,
            ) && is_entry_of(entries[k], files[i].path@, files[i].contents->0@),
{
    let all = accepted(files, Seq::empty());
    lemma_accepted(files, Seq::empty(), all[k].0, all[k].1);
    assert(all.contains(all[k]));
    assert(all[k] == (all[k].0, all[k].1));
    assert(is_entry_of(entries[k], all[k].0, all[k].1));
}

/// Reads the entries of the files: those of each directory sorted by name,
/// and the directories in their order.
pub fn load_entries(files: &[DesktopFile]) -> (res: Vec<DesktopEntry>)
    ensures
        are_entries_of(res@, accepted(files@, Seq::empty())),
{
    let ghost wanted = accepted(files@, Seq::empty());
    let ghost done: Seq<(Seq<char>, Seq<char>)> = Seq::empty();
    let mut entries: Vec<DesktopEntry> = Vec::new();
    let mut ids: Vec<String> = Vec::new();
    let mut i: usize = 0;
    assert(files@.skip(0) =~= files@);
    assert(text::texts(ids@) =~= Seq::<Seq<char>>::empty());
    assert(done + wanted =~= wanted);
    while i < files.len()
        invariant
            i <= files@.len(),
            are_entries_of(entries@, done),
            done + accepted(files@.skip(i as int), text::texts(ids@)) == wanted,
        decreases files@.len() - i,
    {
        let file = &files[i];
        let name = characters(file.name.as_str());
        let id = lower_text(file.name.as_str());
        let ghost seen = text::texts(ids@);
        assert(files@.skip(i as int)[0] == *file);
        assert(files@.skip(i as int).skip(1) =~= files@.skip(i + 1));
        i += 1;
        let is_desktop = match path::extension_of(name.as_slice()) {
            Some(ending) => reads(ending.as_slice(), "desktop"),
            None => false,
        };
        if is_desktop && !text::contains_string(ids.as_slice(), id.as_str()) {
            ids.push(id);
            assert(text::texts(ids@) =~= seen.push(id@));
            if let Some(contents) = &file.contents {
                if let Some(entry) = parse_entry(file.path.as_str(), contents.as_str()) {
                    entries.push(entry);
                    proof {
                        let item = (file.path@, contents@);
                        let tail = accepted(files@.skip(i as int), seen.push(id@));
                        let old_done = done;
                        done = done.push(item);
                        assert(done + tail =~= old_done + (seq![item] + tail));
                    }
                }
            }
        }
    }
    assert(done + accepted(files@.skip(i as int), text::texts(ids@)) =~= done);
    entries
}

} // verus!
