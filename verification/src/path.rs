//! Slash-separated paths: components, file names, stems and extensions.

use vstd::prelude::*;
use vstd::slice::{slice_subrange, slice_to_vec};

use crate::text;
use crate::text::{characters, from_characters, join, reads, split};

verus! {

/// Whether a part between two slashes names something: the empty part and
/// the part `.` do not.
pub open spec fn names(part: Seq<char>) -> bool {
    part.len() > 0 && part != "."@
}

/// The parts of a path that name something.
pub open spec fn path_names(s: Seq<char>) -> Seq<Seq<char>> {
    text::split_at_char(s, '/').filter(|part: Seq<char>| names(part))
}

/// The components of a path: the root directory as `/`, a leading `.`, and
/// the names between the slashes.
pub open spec fn components(s: Seq<char>) -> Seq<Seq<char>> {
    if s.len() > 0 && s[0] == '/' {
        seq!["/"@] + path_names(s)
    } else if text::split_at_char(s, '/')[0] == "."@ {
        seq!["."@] + path_names(s)
    } else {
        path_names(s)
    }
}

/// Whether a component is an ordinary name.
pub open spec fn is_normal(component: Seq<char>) -> bool {
    component != "/"@ && component != "."@ && component != ".."@
}

/// The last component, where it is an ordinary name.
pub open spec fn file_name(s: Seq<char>) -> Option<Seq<char>> {
    let c = components(s);
    if c.len() > 0 && is_normal(c.last()) {
        Some(c.last())
    } else {
        None
    }
}

/// The name of the directory two levels above the file.
pub open spec fn directory_above(s: Seq<char>) -> Option<Seq<char>> {
    let c = components(s);
    if c.len() >= 3 && is_normal(c[c.len() - 3]) {
        Some(c[c.len() - 3])
    } else {
        None
    }
}

/// The position of the last dot, or -1.
pub open spec fn last_dot(s: Seq<char>) -> int
    decreases s.len(),
{
    if s.len() == 0 {
        -1
    } else if s.last() == '.' {
        s.len() - 1
    } else {
        last_dot(s.drop_last())
    }
}

/// The part of a file name before its last dot, where one stands behind the
/// first character; else the whole name.
pub open spec fn stem(name: Seq<char>) -> Seq<char> {
    if last_dot(name) > 0 {
        name.take(last_dot(name))
    } else {
        name
    }
}

/// The part of a file name behind its last dot, where one stands behind the
/// first character.
pub open spec fn suffix(name: Seq<char>) -> Option<Seq<char>> {
    if last_dot(name) > 0 {
        Some(name.skip(last_dot(name) + 1))
    } else {
        None
    }
}

/// The file name without its extension.
pub open spec fn file_stem(s: Seq<char>) -> Option<Seq<char>> {
    match file_name(s) {
        Some(name) => Some(stem(name)),
        None => None,
    }
}

/// The extension of the file name.
pub open spec fn extension(s: Seq<char>) -> Option<Seq<char>> {
    match file_name(s) {
        Some(name) => suffix(name),
        None => None,
    }
}

/// Whether the components of `base` are the first of those of the path.
pub open spec fn lies_under(s: Seq<char>, base: Seq<char>) -> bool {
    components(base).len() <= components(s).len() && components(s).take(
        components(base).len() as int,
    ) == components(base)
}

/// The path that `rest` names from the directory `base`.
pub open spec fn joined(base: Seq<char>, rest: Seq<char>) -> Seq<char> {
    if rest.len() > 0 && rest[0] == '/' {
        rest
    } else if base.len() == 0 || base.last() == '/' {
        base + rest
    } else {
        base.push('/') + rest
    }
}

proof fn lemma_last_dot(s: Seq<char>)
    ensures
        -1 <= last_dot(s) < s.len() || (s.len() == 0 && last_dot(s) == -1),
    decreases s.len(),
{
    if s.len() > 0 && s.last() != '.' {
        lemma_last_dot(s.drop_last());
    }
}

proof fn lemma_last_dot_is_last(s: Seq<char>)
    ensures
        -1 <= last_dot(s) < s.len(),
        last_dot(s) >= 0 ==> s[last_dot(s)] == '.',
        forall|i: int| last_dot(s) < i < s.len() ==> s[i] != '.',
    decreases s.len(),
{
    if s.len() > 0 && s.last() != '.' {
        let before = s.drop_last();
        lemma_last_dot_is_last(before);
        assert forall|i: int| last_dot(s) < i < s.len() implies s[i] != '.' by {
            if i < s.len() - 1 {
                assert(before[i] == s[i]);
            }
        }
    }
}

/// The stem and the extension of a file name make the name, with a dot between
/// them. The extension holds no dot, and the stem is not empty. A name without
/// a dot behind its first character is its own stem.
pub proof fn stem_and_extension_make_the_name(name: Seq<char>)
    ensures
        suffix(name) matches Some(ending) ==> stem(name).push('.') + ending == name
            && !ending.contains('.') && stem(name).len() > 0,
        suffix(name) is None ==> stem(name) == name && forall|i: int|
            0 < i < name.len() ==> name[i] != '.',
{
    lemma_last_dot_is_last(name);
    if let Some(ending) = suffix(name) {
        assert(stem(name).push('.') + ending =~= name);
        if ending.contains('.') {
            let i = choose|i: int| 0 <= i < ending.len() && ending[i] == '.';
            assert(name[last_dot(name) + 1 + i] == '.');
        }
    }
}

proof fn lemma_single(name: Seq<char>)
    requires
        !name.contains('/'),
    ensures
        text::split_at_char(name, '/') == seq![name],
{
    text::lemma_first_index(name, '/');
}

proof fn lemma_filter_one(part: Seq<char>)
    ensures
        names(part) ==> seq![part].filter(|part: Seq<char>| names(part)) == seq![part],
        !names(part) ==> seq![part].filter(|part: Seq<char>| names(part)) == Seq::<
            Seq<char>,
        >::empty(),
{
    reveal(Seq::filter);
    let one = seq![part];
    assert(one.drop_last() =~= Seq::empty());
    assert(Seq::<Seq<char>>::empty().filter(|part: Seq<char>| names(part)) =~= Seq::empty());
    assert(one.last() == part);
}

/// What is joined to a directory lies in it: its components are those of the
/// directory and then its own name, which is the name of the file.
pub proof fn joined_name_lies_in_its_directory(base: Seq<char>, name: Seq<char>)
    requires
        names(name),
        !name.contains('/'),
    ensures
        components(joined(base, name)) == components(base).push(name),
        lies_under(joined(base, name), base),
        is_normal(name) ==> file_name(joined(base, name)) == Some(name),
{
    broadcast use vstd::seq_lib::group_filter_ensures;

    let pred = |part: Seq<char>| names(part);
    let whole = joined(base, name);
    let own = seq![name];
    let empty: Seq<char> = Seq::empty();
    assert(name[0] != '/') by {
        assert(name.contains(name[0]));
    }
    lemma_single(name);
    lemma_filter_one(name);
    assert(!empty.contains('/'));
    lemma_single(empty);
    lemma_filter_one(empty);
    reveal_strlit(".");
    if base.len() == 0 {
        assert(whole =~= name);
        assert(base =~= empty);
        assert(components(base) =~= Seq::empty());
        assert(components(whole) =~= own);
    } else if base.last() == '/' {
        let a = base.drop_last();
        text::lemma_split_of_two(a, '/', name);
        text::lemma_split_of_two(a, '/', empty);
        assert(a.push('/') + name =~= whole);
        assert(a.push('/') + empty =~= base);
        let parts = text::split_at_char(a, '/');
        text::split_text_can_be_rejoined(a, '/');
        Seq::filter_distributes_over_add(parts, own, pred);
        Seq::filter_distributes_over_add(parts, seq![empty], pred);
        assert(path_names(whole) == parts.filter(pred) + own);
        assert(path_names(base) =~= parts.filter(pred));
        assert(whole[0] == base[0]);
        assert(text::split_at_char(whole, '/')[0] == parts[0]);
        assert(text::split_at_char(base, '/')[0] == parts[0]);
        assert(components(whole) =~= components(base).push(name));
    } else {
        text::lemma_split_of_two(base, '/', name);
        let parts = text::split_at_char(base, '/');
        text::split_text_can_be_rejoined(base, '/');
        Seq::filter_distributes_over_add(parts, own, pred);
        assert(whole[0] == base[0]);
        assert(text::split_at_char(whole, '/')[0] == parts[0]);
        assert(components(whole) =~= components(base).push(name));
    }
    assert(components(whole).take(components(base).len() as int) =~= components(base));
}

/// The directory two levels above a file is the one that holds the directory
/// of the file.
pub proof fn directory_above_holds_the_directory(
    base: Seq<char>,
    above: Seq<char>,
    directory: Seq<char>,
    file: Seq<char>,
)
    requires
        names(above),
        !above.contains('/'),
        names(directory),
        !directory.contains('/'),
        names(file),
        !file.contains('/'),
    ensures
        is_normal(above) ==> directory_above(
            joined(joined(joined(base, above), directory), file),
        ) == Some(above),
        !is_normal(above) ==> directory_above(
            joined(joined(joined(base, above), directory), file),
        ) is None,
        components(base).len() < 3 ==> directory_above(base) is None,
{
    joined_name_lies_in_its_directory(base, above);
    joined_name_lies_in_its_directory(joined(base, above), directory);
    joined_name_lies_in_its_directory(joined(joined(base, above), directory), file);
}

/// A path that begins with a slash begins at the root directory, and is not
/// taken from any other directory. What ends there, or in `.` or `..`, names no
/// file.
pub proof fn absolute_paths_begin_at_the_root(s: Seq<char>, base: Seq<char>)
    ensures
        s.len() > 0 && s[0] == '/' ==> components(s).len() > 0 && components(s)[0] == "/"@
            && joined(base, s) == s,
        components(s).len() == 0 ==> file_name(s) is None,
        components(s).len() > 0 && (components(s).last() == "/"@ || components(s).last() == "."@
            || components(s).last() == ".."@) ==> file_name(s) is None,
{
}

/// A path lies under a directory exactly where its components are those of the
/// directory and then some more, if any.
pub proof fn paths_lie_under_by_components(s: Seq<char>, base: Seq<char>, above: Seq<char>)
    ensures
        lies_under(s, base) <==> exists|more: Seq<Seq<char>>|
            components(s) == #[trigger] (components(base) + more),
        lies_under(s, s),
        lies_under(s, base) && lies_under(base, above) ==> lies_under(s, above),
{
    let c = components(s);
    let b = components(base);
    if lies_under(s, base) {
        assert(c =~= b + c.skip(b.len() as int));
    }
    if exists|more: Seq<Seq<char>>| c == #[trigger] (b + more) {
        let more = choose|more: Seq<Seq<char>>| c == #[trigger] (b + more);
        assert((b + more).take(b.len() as int) =~= b);
    }
    assert(c.take(c.len() as int) =~= c);
    if lies_under(s, base) && lies_under(base, above) {
        let n = components(above).len() as int;
        assert(c.take(n) =~= c.take(b.len() as int).take(n));
    }
}

/// The parts of a path that name something.
fn named_parts(parts: &Vec<Vec<char>>) -> (res: Vec<Vec<char>>)
    ensures
        text::pieces(res@) == text::pieces(parts@).filter(|part: Seq<char>| names(part)),
{
    let ghost p = |part: Seq<char>| names(part);
    let mut out: Vec<Vec<char>> = Vec::new();
    let mut i: usize = 0;
    assert(text::pieces(parts@).take(0) =~= Seq::<Seq<char>>::empty());
    assert(text::pieces(out@) =~= text::pieces(parts@).take(0).filter(p)) by {
        reveal(Seq::filter);
    }
    while i < parts.len()
        invariant
            i <= parts@.len(),
            p == (|part: Seq<char>| names(part)),
            text::pieces(out@) == text::pieces(parts@).take(i as int).filter(p),
        decreases parts@.len() - i,
    {
        let part = parts[i].as_slice();
        let ghost before = text::pieces(out@);
        proof {
            let all = text::pieces(parts@);
            assert(all.take(i + 1) =~= all.take(i as int).push(all[i as int]));
            all.take(i as int).lemma_filter_push(all[i as int], p);
        }
        if part.len() > 0 && !reads(part, ".") {
            let copy = slice_to_vec(part);
            out.push(copy);
            assert(text::pieces(out@) =~= before.push(copy@));
        }
        i += 1;
    }
    assert(text::pieces(parts@).take(i as int) =~= text::pieces(parts@));
    out
}

/// The components of a path.
pub fn split_components(s: &[char]) -> (res: Vec<Vec<char>>)
    ensures
        text::pieces(res@) == components(s@),
{
    let parts = split(s, '/');
    let mut named = named_parts(&parts);
    let ghost tail = text::pieces(named@);
    assert(text::pieces(parts@)[0] == parts@[0]@);
    if s.len() > 0 && s[0] == '/' {
        let root = characters("/");
        let mut out: Vec<Vec<char>> = Vec::new();
        out.push(root);
        assert(text::pieces(out@) =~= seq!["/"@]);
        let ghost head = out@;
        let ghost rest = named@;
        out.append(&mut named);
        assert(out@ =~= head + rest);
        assert(text::pieces(out@) =~= seq!["/"@] + tail);
        out
    } else if reads(parts[0].as_slice(), ".") {
        let dot = characters(".");
        let mut out: Vec<Vec<char>> = Vec::new();
        out.push(dot);
        assert(text::pieces(out@) =~= seq!["."@]);
        let ghost head = out@;
        let ghost rest = named@;
        out.append(&mut named);
        assert(out@ =~= head + rest);
        assert(text::pieces(out@) =~= seq!["."@] + tail);
        out
    } else {
        named
    }
}

fn normal(component: &[char]) -> (res: bool)
    ensures
        res == is_normal(component@),
{
    !reads(component, "/") && !reads(component, ".") && !reads(component, "..")
}

/// What an optional row of characters reads.
pub open spec fn piece_of(value: Option<Vec<char>>) -> Option<Seq<char>> {
    match value {
        Some(s) => Some(s@),
        None => None,
    }
}

/// The file name of a path.
pub fn name_of(s: &[char]) -> (res: Option<Vec<char>>)
    ensures
        piece_of(res) == file_name(s@),
{
    let c = split_components(s);
    assert(text::pieces(c@).len() == c@.len());
    if c.len() == 0 {
        return None;
    }
    let last = c[c.len() - 1].as_slice();
    assert(text::pieces(c@).last() == last@);
    if normal(last) {
        Some(slice_to_vec(last))
    } else {
        None
    }
}

/// The name of the directory two levels above the file.
pub fn directory_name(s: &[char]) -> (res: Option<Vec<char>>)
    ensures
        piece_of(res) == directory_above(s@),
{
    let c = split_components(s);
    assert(text::pieces(c@).len() == c@.len());
    if c.len() < 3 {
        return None;
    }
    let name = c[c.len() - 3].as_slice();
    assert(text::pieces(c@)[c@.len() - 3] == name@);
    if normal(name) {
        Some(slice_to_vec(name))
    } else {
        None
    }
}

fn find_last_dot(s: &[char]) -> (res: Option<usize>)
    ensures
        match res {
            Some(i) => i == last_dot(s@),
            None => last_dot(s@) == -1,
        },
{
    let mut n: usize = s.len();
    assert(s@.take(n as int) =~= s@);
    while n > 0
        invariant
            n <= s@.len(),
            last_dot(s@) == last_dot(s@.take(n as int)),
        decreases n,
    {
        if s[n - 1] == '.' {
            return Some(n - 1);
        }
        assert(s@.take(n as int).drop_last() =~= s@.take(n - 1));
        n -= 1;
    }
    None
}

/// The stem of a file name.
pub fn stem_of_name(name: &[char]) -> (res: &[char])
    ensures
        res@ == stem(name@),
{
    proof {
        lemma_last_dot(name@);
    }
    match find_last_dot(name) {
        Some(i) => {
            if i > 0 {
                assert(name@.subrange(0, i as int) =~= name@.take(i as int));
                slice_subrange(name, 0, i)
            } else {
                name
            }
        },
        None => name,
    }
}

/// The stem of the file that a path names.
pub fn stem_of(s: &[char]) -> (res: Option<Vec<char>>)
    ensures
        piece_of(res) == file_stem(s@),
{
    match name_of(s) {
        Some(name) => Some(slice_to_vec(stem_of_name(name.as_slice()))),
        None => None,
    }
}

/// The extension of the file that a path names.
pub fn extension_of(s: &[char]) -> (res: Option<Vec<char>>)
    ensures
        piece_of(res) == extension(s@),
{
    let name = match name_of(s) {
        Some(name) => name,
        None => {
            return None;
        },
    };
    proof {
        lemma_last_dot(name@);
    }
    match find_last_dot(name.as_slice()) {
        Some(i) => {
            if i > 0 {
                let n = name.len();
                assert(name@.subrange(i + 1, n as int) =~= name@.skip(i + 1));
                Some(slice_to_vec(slice_subrange(name.as_slice(), i + 1, n)))
            } else {
                None
            }
        },
        None => None,
    }
}

/// Tests that a path lies in or under the directory `base`.
pub fn is_under(path: &str, base: &str) -> (res: bool)
    ensures
        res == lies_under(path@, base@),
{
    let s = characters(path);
    let b = characters(base);
    let cs = split_components(s.as_slice());
    let cb = split_components(b.as_slice());
    let ghost ps = components(path@);
    let ghost pb = components(base@);
    assert(cs@.len() == ps.len() && cb@.len() == pb.len());
    if cb.len() > cs.len() {
        return false;
    }
    let mut i: usize = 0;
    while i < cb.len()
        invariant
            i <= cb@.len() <= cs@.len(),
            ps == text::pieces(cs@),
            pb == text::pieces(cb@),
            ps == components(path@),
            pb == components(base@),
            forall|k: int| 0 <= k < i ==> #[trigger] ps[k] == pb[k],
        decreases cb@.len() - i,
    {
        let left = from_characters(cs[i].as_slice());
        let right = from_characters(cb[i].as_slice());
        assert(ps[i as int] == left@ && pb[i as int] == right@);
        if left != right {
            assert(ps.take(pb.len() as int)[i as int] != pb[i as int]);
            return false;
        }
        i += 1;
    }
    assert(ps.take(pb.len() as int) =~= pb);
    true
}

/// Joins a directory and what is named from it.
pub fn join_path(base: &str, rest: &str) -> (res: String)
    ensures
        res@ == joined(base@, rest@),
{
    let b = characters(base);
    let r = characters(rest);
    if r.len() > 0 && r[0] == '/' {
        rest.to_owned()
    } else if b.len() == 0 || b[b.len() - 1] == '/' {
        join(base, rest)
    } else {
        let mut out = base.to_owned();
        out.push('/');
        out.concat(rest)
    }
}

// ---------------------------------------------------------------------
// Order
// ---------------------------------------------------------------------

/// The class by which components are ordered first: the root directory, `.`,
/// `..`, and then the ordinary names.
pub open spec fn component_class(component: Seq<char>) -> int {
    if component == "/"@ {
        0
    } else if component == "."@ {
        1
    } else if component == ".."@ {
        2
    } else {
        3
    }
}

/// Whether a component is ordered before another.
pub open spec fn component_precedes(a: Seq<char>, b: Seq<char>) -> bool {
    component_class(a) < component_class(b) || (component_class(a) == component_class(b)
        && text::precedes(a, b))
}

/// Whether a row of components is ordered before another: by the first
/// component in which they differ, and the shorter row first.
pub open spec fn row_precedes(a: Seq<Seq<char>>, b: Seq<Seq<char>>) -> bool
    decreases a.len(),
{
    if b.len() == 0 {
        false
    } else if a.len() == 0 {
        true
    } else if a[0] != b[0] {
        component_precedes(a[0], b[0])
    } else {
        row_precedes(a.skip(1), b.skip(1))
    }
}

/// The root directory goes before `.`, that before `..`, and that before every
/// ordinary name; ordinary names go by their characters.
pub proof fn components_are_ordered_by_class(name: Seq<char>, other: Seq<char>)
    requires
        is_normal(name),
        is_normal(other),
    ensures
        component_precedes("/"@, "."@),
        component_precedes("."@, ".."@),
        component_precedes(".."@, name),
        !component_precedes(name, ".."@),
        component_precedes(name, other) <==> text::precedes(name, other),
{
    reveal_strlit("/");
    reveal_strlit(".");
    reveal_strlit("..");
    assert("/"@[0] == '/' && "."@[0] == '.');
    assert("."@.len() == 1 && ".."@.len() == 2 && "/"@.len() == 1);
}

/// No row of components precedes itself.
pub proof fn lemma_row_irreflexive(a: Seq<Seq<char>>)
    ensures
        !row_precedes(a, a),
    decreases a.len(),
{
    if a.len() > 0 {
        lemma_row_irreflexive(a.skip(1));
    }
}

/// What precedes a row of components precedes all that the row precedes.
pub proof fn lemma_row_transitive(a: Seq<Seq<char>>, b: Seq<Seq<char>>, c: Seq<Seq<char>>)
    requires
        row_precedes(a, b),
        row_precedes(b, c),
    ensures
        row_precedes(a, c),
    decreases a.len(),
{
    if a.len() > 0 {
        if a[0] == b[0] && b[0] == c[0] {
            lemma_row_transitive(a.skip(1), b.skip(1), c.skip(1));
        } else if a[0] != b[0] && b[0] != c[0] {
            if text::precedes(a[0], b[0]) && text::precedes(b[0], c[0]) {
                text::lemma_precedes_transitive(a[0], b[0], c[0]);
            }
            text::lemma_precedes_irreflexive(a[0]);
        }
    }
}

/// Of two different rows of components one precedes the other.
pub proof fn lemma_row_total(a: Seq<Seq<char>>, b: Seq<Seq<char>>)
    ensures
        a == b || row_precedes(a, b) || row_precedes(b, a),
    decreases a.len(),
{
    if a.len() > 0 && b.len() > 0 {
        if a[0] == b[0] {
            lemma_row_total(a.skip(1), b.skip(1));
            if a.skip(1) == b.skip(1) {
                assert(a =~= seq![a[0]] + a.skip(1));
                assert(b =~= seq![b[0]] + b.skip(1));
            }
        } else {
            text::lemma_precedes_total(a[0], b[0]);
        }
    } else if a.len() == 0 && b.len() == 0 {
        assert(a =~= b);
    }
}

fn class_of(component: &[char]) -> (res: u8)
    ensures
        res == component_class(component@),
{
    if reads(component, "/") {
        0
    } else if reads(component, ".") {
        1
    } else if reads(component, "..") {
        2
    } else {
        3
    }
}

/// Compares two paths by their components.
pub fn is_path_before(left: &str, right: &str) -> (res: bool)
    ensures
        res == row_precedes(components(left@), components(right@)),
{
    let a = split_components(characters(left).as_slice());
    let b = split_components(characters(right).as_slice());
    let ghost ga = components(left@);
    let ghost gb = components(right@);
    let mut i: usize = 0;
    assert(ga.skip(0) =~= ga);
    assert(gb.skip(0) =~= gb);
    while i < a.len() && i < b.len()
        invariant
            i <= a@.len(),
            i <= b@.len(),
            ga == text::pieces(a@),
            gb == text::pieces(b@),
            ga == components(left@),
            gb == components(right@),
            row_precedes(ga, gb) == row_precedes(ga.skip(i as int), gb.skip(i as int)),
        decreases a@.len() - i,
    {
        let x = from_characters(a[i].as_slice());
        let y = from_characters(b[i].as_slice());
        assert(ga.skip(i as int)[0] == x@);
        assert(gb.skip(i as int)[0] == y@);
        if x != y {
            let cx = class_of(a[i].as_slice());
            let cy = class_of(b[i].as_slice());
            return cx < cy || (cx == cy && text::is_before(x.as_str(), y.as_str()));
        }
        assert(ga.skip(i as int).skip(1) =~= ga.skip(i + 1));
        assert(gb.skip(i as int).skip(1) =~= gb.skip(i + 1));
        i += 1;
    }
    i < b.len()
}

} // verus!
