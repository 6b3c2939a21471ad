//! The pictures that Steam keeps of its applications, and which of them is an
//! application's icon.

use vstd::prelude::*;

use crate::path;
use crate::path::{extension_of, is_under, join_path, stem_of};
use crate::text;
use crate::text::{
    characters, contains, from_characters, lower, lower_text, only_hex_digits, reads, same,
};

verus! {

/// What a picture shows.
#[derive(Clone, Copy, Debug, PartialEq, Eq, Structural)]
pub enum SteamArtworkRole {
    AppIcon,
    SquareArtwork,
    Logo,
    Header,
    Hero,
    Unknown,
}

/// How much a role is preferred.
pub open spec fn role_rank(role: SteamArtworkRole) -> u8 {
    match role {
        SteamArtworkRole::AppIcon => 6,
        SteamArtworkRole::SquareArtwork => 5,
        SteamArtworkRole::Logo => 3,
        SteamArtworkRole::Header => 2,
        SteamArtworkRole::Hero => 1,
        SteamArtworkRole::Unknown => 0,
    }
}

/// The name of a role.
pub open spec fn role_name(role: SteamArtworkRole) -> Seq<char> {
    match role {
        SteamArtworkRole::AppIcon => "app-icon"@,
        SteamArtworkRole::SquareArtwork => "square-artwork"@,
        SteamArtworkRole::Logo => "logo"@,
        SteamArtworkRole::Header => "header"@,
        SteamArtworkRole::Hero => "hero"@,
        SteamArtworkRole::Unknown => "unknown"@,
    }
}

impl SteamArtworkRole {
    /// How much the role is preferred.
    pub fn rank(self) -> (res: u8)
        ensures
            res == role_rank(self),
    {
        match self {
            SteamArtworkRole::AppIcon => 6,
            SteamArtworkRole::SquareArtwork => 5,
            SteamArtworkRole::Logo => 3,
            SteamArtworkRole::Header => 2,
            SteamArtworkRole::Hero => 1,
            SteamArtworkRole::Unknown => 0,
        }
    }

    /// The name of the role.
    pub fn as_str(self) -> (res: &'static str)
        ensures
            res@ == role_name(self),
    {
        match self {
            SteamArtworkRole::AppIcon => "app-icon",
            SteamArtworkRole::SquareArtwork => "square-artwork",
            SteamArtworkRole::Logo => "logo",
            SteamArtworkRole::Header => "header",
            SteamArtworkRole::Hero => "hero",
            SteamArtworkRole::Unknown => "unknown",
        }
    }
}

/// A file among Steam's pictures. `dimensions` holds the width and the height
/// of the picture, where they could be read.
#[derive(Debug)]
pub struct CacheImage {
    pub path: String,
    pub dimensions: Option<(u32, u32)>,
}

/// A picture, and what it shows.
#[derive(Debug)]
pub struct SteamCacheCandidate {
    pub path: String,
    pub width: u32,
    pub height: u32,
    pub exact_app_directory: bool,
    pub role: SteamArtworkRole,
}

/// Whether the width is between four fifths and five fourths of the height.
pub open spec fn is_square(width: u32, height: u32) -> bool {
    4 * height <= 5 * width && 4 * width <= 5 * height
}

/// Whether the file lies in one of the directories.
pub open spec fn is_within(file: Seq<char>, roots: Seq<String>) -> bool {
    exists|i: int| 0 <= i < roots.len() && path::lies_under(file, (#[trigger] roots[i])@)
}

/// The lower-case name of a file without its extension.
pub open spec fn lower_stem(file: Seq<char>) -> Seq<char> {
    match path::file_stem(file) {
        Some(stem) => text::lowered(stem),
        None => Seq::empty(),
    }
}

/// Whether a name is a hash: at least sixteen hexadecimal digits.
pub open spec fn is_hash(stem: Seq<char>) -> bool {
    stem.len() >= 16 && forall|i: int| 0 <= i < stem.len() ==> text::is_hex_digit(#[trigger] stem[i])
}

/// What the picture in a file shows, by its name, its shape and its place.
pub open spec fn role_of(file: Seq<char>, width: u32, height: u32, roots: Seq<String>) -> SteamArtworkRole {
    let stem = lower_stem(file);
    if is_within(file, roots) && is_square(width, height) && is_hash(stem) {
        SteamArtworkRole::AppIcon
    } else if stem == "logo"@ {
        SteamArtworkRole::Logo
    } else if text::occurs(stem, "header"@) || text::occurs(stem, "capsule"@) {
        SteamArtworkRole::Header
    } else if text::occurs(stem, "hero"@) {
        SteamArtworkRole::Hero
    } else if is_within(file, roots) && is_square(width, height) {
        SteamArtworkRole::SquareArtwork
    } else {
        SteamArtworkRole::Unknown
    }
}

/// How much the format of a file is preferred.
pub open spec fn format_rank(file: Seq<char>) -> u8 {
    let ending = match path::extension(file) {
        Some(ending) => text::lowered(ending),
        None => Seq::empty(),
    };
    if ending == "svg"@ {
        4
    } else if ending == "png"@ {
        3
    } else if ending == "jpg"@ || ending == "jpeg"@ {
        1
    } else {
        0
    }
}

/// How much a picture is preferred: by its role, its format and its area.
pub open spec fn score_of(candidate: SteamCacheCandidate) -> (u8, u8, u64) {
    (
        role_rank(candidate.role),
        format_rank(candidate.path@),
        (candidate.width * candidate.height) as u64,
    )
}

/// Whether the second score is the better one.
pub open spec fn is_lower(a: (u8, u8, u64), b: (u8, u8, u64)) -> bool {
    a.0 < b.0 || (a.0 == b.0 && (a.1 < b.1 || (a.1 == b.1 && a.2 < b.2)))
}

fn lies_within(file: &str, roots: &[String]) -> (res: bool)
    ensures
        res == is_within(file@, roots@),
{
    let mut i: usize = 0;
    while i < roots.len()
        invariant
            i <= roots@.len(),
            forall|j: int| 0 <= j < i ==> !path::lies_under(file@, (#[trigger] roots@[j])@),
        decreases roots@.len() - i,
    {
        if is_under(file, roots[i].as_str()) {
            assert(path::lies_under(file@, roots@[i as int]@));
            return true;
        }
        i += 1;
    }
    false
}

fn is_in(s: &[char], part: &str) -> (res: bool)
    ensures
        res == text::occurs(s@, part@),
{
    let part = characters(part);
    contains(s, part.as_slice())
}

/// Tells what a picture shows. Nothing is said of one that cannot be read or
/// has no height.
pub fn classify_steam_candidate(
    file: &str,
    dimensions: Option<(u32, u32)>,
    exact_roots: &[String],
) -> (res: Option<SteamCacheCandidate>)
    ensures
        match dimensions {
            Some((width, height)) => match res {
                Some(candidate) => {
                    &&& height > 0
                    &&& candidate.path@ == file@
                    &&& candidate.width == width
                    &&& candidate.height == height
                    &&& candidate.exact_app_directory == is_within(file@, exact_roots@)
                    &&& candidate.role == role_of(file@, width, height, exact_roots@)
                },
                None => height == 0,
            },
            None => res is None,
        },
{
    let (width, height): (u32, u32) = match dimensions {
        Some(size) => size,
        None => return None,
    };
    if height == 0 {
        return None;
    }
    let square = 4 * (height as u64) <= 5 * (width as u64) && 4 * (width as u64) <= 5 * (
    height as u64);
    let exact_app_directory = lies_within(file, exact_roots);
    let chars = characters(file);
    let stem: Vec<char> = match stem_of(chars.as_slice()) {
        Some(stem) => lower(stem.as_slice()),
        None => Vec::new(),
    };
    assert(stem@ =~= lower_stem(file@));
    let opaque_hash = stem.len() >= 16 && only_hex_digits(stem.as_slice());
    let role = if exact_app_directory && square && opaque_hash {
        SteamArtworkRole::AppIcon
    } else if reads(stem.as_slice(), "logo") {
        SteamArtworkRole::Logo
    } else if is_in(stem.as_slice(), "header") || is_in(stem.as_slice(), "capsule") {
        SteamArtworkRole::Header
    } else if is_in(stem.as_slice(), "hero") {
        SteamArtworkRole::Hero
    } else if exact_app_directory && square {
        SteamArtworkRole::SquareArtwork
    } else {
        SteamArtworkRole::Unknown
    };
    Some(SteamCacheCandidate { path: file.to_owned(), width, height, exact_app_directory, role })
}

impl SteamCacheCandidate {
    /// How much the picture is preferred.
    pub fn score(&self) -> (res: (u8, u8, u64))
        ensures
            res == score_of(*self),
    {
        let chars = characters(self.path.as_str());
        let ending = match extension_of(chars.as_slice()) {
            Some(ending) => lower_text(from_characters(ending.as_slice()).as_str()),
            None => String::new(),
        };
        let format: u8 = if same(ending.as_str(), "svg") {
            4
        } else if same(ending.as_str(), "png") {
            3
        } else if same(ending.as_str(), "jpg") || same(ending.as_str(), "jpeg") {
            1
        } else {
            0
        };
        assert(self.width * self.height <= 0xffff_ffff * 0xffff_ffff) by (nonlinear_arith)
            requires
                self.width <= 0xffff_ffff,
                self.height <= 0xffff_ffff,
        ;
        (self.role.rank(), format, self.width as u64 * self.height as u64)
    }
}

/// Whether a file holds a picture, by its extension.
pub open spec fn is_picture(file: Seq<char>) -> bool {
    match path::extension(file) {
        Some(ending) => ending == "svg"@ || ending == "png"@ || ending == "jpg"@ || ending
            == "jpeg"@,
        None => false,
    }
}

/// Whether a file holds a picture, by its extension.
pub fn is_picture_file(file: &str) -> (res: bool)
    ensures
        res == is_picture(file@),
{
    let chars = characters(file);
    match extension_of(chars.as_slice()) {
        Some(ending) => reads(ending.as_slice(), "svg") || reads(ending.as_slice(), "png")
            || reads(ending.as_slice(), "jpg") || reads(ending.as_slice(), "jpeg"),
        None => false,
    }
}

/// How much a file is preferred, where it holds a picture that counts.
pub open spec fn image_score(image: CacheImage, roots: Seq<String>) -> Option<(u8, u8, u64)> {
    match image.dimensions {
        Some((width, height)) => if is_picture(image.path@) && height > 0 {
            Some(
                (
                    role_rank(role_of(image.path@, width, height, roots)),
                    format_rank(image.path@),
                    (width * height) as u64,
                ),
            )
        } else {
            None
        },
        None => None,
    }
}

/// Whether the file at `best` is the one to take of the first `n`. Of files
/// with the same score the last one counts.
pub open spec fn is_best_image(images: Seq<CacheImage>, roots: Seq<String>, best: int, n: int) -> bool {
    &&& 0 <= best < n
    &&& image_score(images[best], roots) matches Some(score) && {
        &&& forall|j: int|
            0 <= j < best ==> (image_score(#[trigger] images[j], roots) matches Some(other)
                ==> !is_lower(score, other))
        &&& forall|j: int|
            best < j < n ==> (image_score(#[trigger] images[j], roots) matches Some(other)
                ==> is_lower(other, score))
    }
}

/// The directories that hold the pictures of a Steam application.
pub fn artwork_roots(home: &str, app_id: &str) -> (res: Vec<String>)
    ensures
        text::texts(res@) == seq![
            path::joined(
                path::joined(home@, ".local/share/Steam/appcache/librarycache"@),
                app_id@,
            ),
            path::joined(path::joined(home@, ".steam/steam/appcache/librarycache"@), app_id@),
            path::joined(
                path::joined(
                    home@,
                    ".var/app/com.valvesoftware.Steam/data/Steam/appcache/librarycache"@,
                ),
                app_id@,
            ),
        ],
{
    let own = join_path(home, ".local/share/Steam/appcache/librarycache");
    let linked = join_path(home, ".steam/steam/appcache/librarycache");
    let flatpak = join_path(
        home,
        ".var/app/com.valvesoftware.Steam/data/Steam/appcache/librarycache",
    );
    let mut roots: Vec<String> = Vec::new();
    roots.push(join_path(own.as_str(), app_id));
    roots.push(join_path(linked.as_str(), app_id));
    roots.push(join_path(flatpak.as_str(), app_id));
    assert(text::texts(roots@) =~= seq![
        path::joined(
            path::joined(home@, ".local/share/Steam/appcache/librarycache"@),
            app_id@,
        ),
        path::joined(path::joined(home@, ".steam/steam/appcache/librarycache"@), app_id@),
        path::joined(
            path::joined(
                home@,
                ".var/app/com.valvesoftware.Steam/data/Steam/appcache/librarycache"@,
            ),
            app_id@,
        ),
    ]);
    roots
}

/// Selects the picture to show for a Steam application, from the files below
/// its directories.
pub fn best_steam_cache_icon(images: &[CacheImage], roots: &[String]) -> (res: Option<String>)
    ensures
        match res {
            Some(found) => exists|i: int|
                {
                    &&& #[trigger] is_best_image(images@, roots@, i, images@.len() as int)
                    &&& found@ == images@[i].path@
                },
            None => forall|j: int|
                0 <= j < images@.len() ==> image_score(#[trigger] images@[j], roots@) is None,
        },
{
    let mut best: Option<(usize, (u8, u8, u64))> = None;
    let mut i: usize = 0;
    while i < images.len()
        invariant
            i <= images@.len(),
            match best {
                Some((at, score)) => {
                    &&& is_best_image(images@, roots@, at as int, i as int)
                    &&& image_score(images@[at as int], roots@) == Some(score)
                },
                None => forall|j: int|
                    0 <= j < i ==> image_score(#[trigger] images@[j], roots@) is None,
            },
        decreases images@.len() - i,
    {
        let image = &images[i];
        if is_picture_file(image.path.as_str()) {
            if let Some(candidate) = classify_steam_candidate(
                image.path.as_str(),
                image.dimensions,
                roots,
            ) {
                let score = candidate.score();
                assert(image_score(images@[i as int], roots@) == Some(score));
                let replaces = match best {
                    Some((_, held)) => !(score.0 < held.0 || (score.0 == held.0 && (score.1
                        < held.1 || (score.1 == held.1 && score.2 < held.2)))),
                    None => true,
                };
                if replaces {
                    best = Some((i, score));
                }
            }
        }
        i += 1;
    }
    match best {
        Some((at, _)) => {
            assert(is_best_image(images@, roots@, at as int, images@.len() as int));
            Some(images[at].path.clone())
        },
        None => None,
    }
}

/// What the picture in a file shows, where it counts.
pub open spec fn image_role(image: CacheImage, roots: Seq<String>) -> Option<SteamArtworkRole> {
    match image.dimensions {
        Some((width, height)) => if is_picture(image.path@) && height > 0 {
            Some(role_of(image.path@, width, height, roots))
        } else {
            None
        },
        None => None,
    }
}

/// A square picture named by a hash, in one of the application's own
/// directories, is taken before every picture with another role.
pub proof fn app_icon_wins(images: Seq<CacheImage>, roots: Seq<String>, best: int, other: int)
    requires
        is_best_image(images, roots, best, images.len() as int),
        0 <= other < images.len(),
        image_role(images[other], roots) == Some(SteamArtworkRole::AppIcon),
    ensures
        image_role(images[best], roots) == Some(SteamArtworkRole::AppIcon),
{
}

/// An icon is preferred to a square picture, that to a logo, that to a header,
/// that to a hero, and that to a picture of which nothing is known.
pub proof fn roles_are_ranked()
    ensures
        role_rank(SteamArtworkRole::AppIcon) > role_rank(SteamArtworkRole::SquareArtwork),
        role_rank(SteamArtworkRole::SquareArtwork) > role_rank(SteamArtworkRole::Logo),
        role_rank(SteamArtworkRole::Logo) > role_rank(SteamArtworkRole::Header),
        role_rank(SteamArtworkRole::Header) > role_rank(SteamArtworkRole::Hero),
        role_rank(SteamArtworkRole::Hero) > role_rank(SteamArtworkRole::Unknown),
{
}

/// A picture shows an icon exactly where it is square, named by a hash, and in
/// one of the application's own directories. Else a file named `logo` shows a
/// logo, one whose name speaks of a header or a capsule shows a header, one
/// whose name speaks of a hero shows that; and only then does a square picture
/// in such a directory count as one.
pub proof fn roles_follow_name_shape_and_place(
    file: Seq<char>,
    width: u32,
    height: u32,
    roots: Seq<String>,
)
    ensures
        ({
            let role = role_of(file, width, height, roots);
            let stem = lower_stem(file);
            let own = is_within(file, roots) && is_square(width, height);
            let speaks_of_header = text::occurs(stem, "header"@) || text::occurs(stem, "capsule"@);
            &&& role == SteamArtworkRole::AppIcon <==> own && is_hash(stem)
            &&& role == SteamArtworkRole::Logo <==> stem == "logo"@
            &&& role == SteamArtworkRole::Header <==> speaks_of_header && !(own && is_hash(stem))
                && stem != "logo"@
            &&& role == SteamArtworkRole::Hero ==> text::occurs(stem, "hero"@)
            &&& text::occurs(stem, "hero"@) && !own && !speaks_of_header && stem != "logo"@
                ==> role == SteamArtworkRole::Hero
            &&& role == SteamArtworkRole::SquareArtwork ==> own
            &&& own ==> role != SteamArtworkRole::Unknown
        }),
{
    reveal_strlit("logo");
    assert("logo"@.len() == 4);
}

/// A picture counts as square as well when it is turned, at every size, and
/// never when one side is more than five fourths of the other.
pub proof fn squares_are_square_when_turned(width: u32, height: u32)
    ensures
        is_square(width, height) == is_square(height, width),
        is_square(width, width),
        4 * width > 5 * height ==> !is_square(width, height),
        4 * height > 5 * width ==> !is_square(width, height),
        4 * width <= 5 * height && 4 * height <= 5 * width ==> is_square(width, height),
{
}

/// The picture that is taken counts, no other that counts has the better role,
/// and of those with its role none has the better format: drawings go before
/// PNG files, and these before JPEG files.
pub proof fn best_picture_has_the_best_role_and_format(
    images: Seq<CacheImage>,
    roots: Seq<String>,
    best: int,
    other: int,
)
    requires
        is_best_image(images, roots, best, images.len() as int),
        0 <= other < images.len(),
        image_role(images[other], roots) is Some,
    ensures
        image_role(images[best], roots) is Some,
        role_rank(image_role(images[other], roots)->0) <= role_rank(
            image_role(images[best], roots)->0,
        ),
        image_role(images[other], roots) == image_role(images[best], roots) ==> {
            let taken = path::extension(images[best].path@);
            let left = path::extension(images[other].path@);
            &&& left == Some("svg"@) ==> taken == Some("svg"@)
            &&& left == Some("png"@) ==> taken == Some("svg"@) || taken == Some("png"@)
        },
{
    reveal_strlit("svg");
    reveal_strlit("png");
    reveal_strlit("jpg");
    reveal_strlit("jpeg");
    assert(text::lowered("svg"@) =~= "svg"@);
    assert(text::lowered("png"@) =~= "png"@);
    assert(text::lowered("jpg"@) =~= "jpg"@);
    assert(text::lowered("jpeg"@) =~= "jpeg"@);
    assert("svg"@[0] == 's' && "png"@[0] == 'p' && "jpg"@[0] == 'j' && "jpeg"@[0] == 'j');
    assert(image_score(images[other], roots) is Some);
    let taken = image_score(images[best], roots)->0;
    let left = image_score(images[other], roots)->0;
    assert(!is_lower(taken, left));
}

/// Only pictures count: files with one of the four endings, of which a height
/// is known. The one that is taken counts, and so something is taken wherever
/// one counts. Drawings are preferred to PNG files, these to JPEG files, and
/// those to everything else.
pub proof fn only_pictures_count(image: CacheImage, roots: Seq<String>, width: u32, height: u32)
    requires
        image.dimensions == Some((width, height)),
    ensures
        image_score(image, roots) is Some <==> height > 0 && (path::extension(image.path@) == Some(
            "jpeg"@,
        ) || path::extension(image.path@) == Some("jpg"@) || path::extension(image.path@) == Some(
            "png"@,
        ) || path::extension(image.path@) == Some("svg"@)),
        image_score(image, roots) matches Some(score) ==> score.2 == width * height && score.0
            == role_rank(role_of(image.path@, width, height, roots)),
        image_score(image, roots) matches Some(score) ==> {
            &&& path::extension(image.path@) == Some("svg"@) <==> score.1 > 3
            &&& path::extension(image.path@) == Some("png"@) <==> 1 < score.1 <= 3
            &&& path::extension(image.path@) == Some("jpg"@) || path::extension(image.path@)
                == Some("jpeg"@) <==> score.1 == 1
        },
{
    reveal_strlit("svg");
    reveal_strlit("png");
    reveal_strlit("jpg");
    reveal_strlit("jpeg");
    assert(text::lowered("svg"@) =~= "svg"@);
    assert(text::lowered("png"@) =~= "png"@);
    assert(text::lowered("jpg"@) =~= "jpg"@);
    assert(text::lowered("jpeg"@) =~= "jpeg"@);
    assert("svg"@[0] == 's' && "png"@[0] == 'p' && "jpg"@[0] == 'j' && "jpeg"@[0] == 'j');
    assert(width * height <= 0xffff_ffff * 0xffff_ffff) by (nonlinear_arith)
        requires
            0 <= width <= 0xffff_ffff,
            0 <= height <= 0xffff_ffff,
    ;
    assert(0 <= width * height) by (nonlinear_arith)
        requires
            0 <= width,
            0 <= height,
    ;
}

/// Of pictures with the same role and format none is larger than the one
/// taken.
pub proof fn larger_picture_wins(
    images: Seq<CacheImage>,
    roots: Seq<String>,
    best: int,
    taken: (u8, u8, u64),
    other: int,
    left: (u8, u8, u64),
)
    requires
        is_best_image(images, roots, best, images.len() as int),
        image_score(images[best], roots) == Some(taken),
        0 <= other < images.len(),
        image_score(images[other], roots) == Some(left),
        left.0 == taken.0,
        left.1 == taken.1,
    ensures
        left.2 <= taken.2,
{
}

} // verus!
