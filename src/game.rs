//! Games as the configuration records them, and the requests that change them.
use crate::text::{chars_of, str_equal, string_of};
use crate::timestamp::Timestamp;
use base64::Engine;
use vstd::prelude::*;
use vstd::string::StringSliceAdditionalSpecFns;

verus! {

/// A game whose saves are snapshotted.
#[derive(Clone, Debug, PartialEq, Eq)]
pub struct Game {
    pub id: String,
    pub name: String,
    pub save_location: String,
    pub exe_name: Option<String>,
    pub cover_image: Option<String>,
    pub created_at: Timestamp,
}

/// A request to register a game.
#[derive(Clone, Debug, PartialEq, Eq)]
pub struct AddGameRequest {
    pub name: String,
    pub save_location: String,
    pub exe_name: Option<String>,
    pub cover_image: Option<String>,
}

/// A request to change a registered game; each field given replaces the game's.
#[derive(Clone, Debug, PartialEq, Eq)]
pub struct UpdateGameRequest {
    pub game_id: String,
    pub name: Option<String>,
    pub save_location: Option<String>,
    pub exe_name: Option<String>,
    pub cover_image: Option<String>,
}

/// The application's persisted configuration: the games and the backup root.
#[derive(Clone, Debug, PartialEq, Eq)]
pub struct Config {
    pub games: Vec<Game>,
    pub backup_location: String,
}

impl Game {
    /// A new game with a fresh id, created now; `None` where the clock reads
    /// outside the instants a record can hold.
    pub fn new(
        name: String,
        save_location: String,
        exe_name: Option<String>,
        cover_image: Option<String>,
    ) -> (r: Option<Game>)
        ensures
            r matches Some(g) ==> g.name == name && g.save_location == save_location && g.exe_name
                == exe_name && g.cover_image == cover_image && g.id@.len() == 36
                && g.created_at.wf(),
    {
        let created_at = match Timestamp::now() {
            Some(t) => t,
            None => return None,
        };
        Some(Game { id: crate::snapshot::new_id(), name, save_location, exe_name, cover_image, created_at })
    }
}

/// The index of the first game with id `game_id`.
pub fn find_game(games: &Vec<Game>, game_id: &str) -> (r: Option<usize>)
    ensures
        r matches Some(i) ==> i < games@.len() && games@[i as int].id@ == game_id@ && forall|j: int|
            0 <= j < i ==> (#[trigger] games@[j]).id@ != game_id@,
        r is None ==> forall|j: int| 0 <= j < games@.len() ==> (#[trigger] games@[j]).id@ != game_id@,
{
    let mut i: usize = 0;
    while i < games.len()
        invariant
            i <= games@.len(),
            forall|j: int| 0 <= j < i ==> (#[trigger] games@[j]).id@ != game_id@,
        decreases games@.len() - i,
    {
        if str_equal(games[i].id.as_str(), game_id) {
            return Some(i);
        }
        i = i + 1;
    }
    None
}

/// Applies the name, save location and executable of an update; the cover
/// image is handled apart, since it is stored as a file.
pub fn apply_update(game: &mut Game, request: UpdateGameRequest)
    ensures
        final(game).id == old(game).id,
        final(game).created_at == old(game).created_at,
        final(game).cover_image == old(game).cover_image,
        final(game).name == match request.name {
            Some(n) => n,
            None => old(game).name,
        },
        final(game).save_location == match request.save_location {
            Some(s) => s,
            None => old(game).save_location,
        },
        final(game).exe_name == match request.exe_name {
            Some(e) => Some(e),
            None => old(game).exe_name,
        },
{
    if let Some(n) = request.name {
        game.name = n;
    }
    if let Some(s) = request.save_location {
        game.save_location = s;
    }
    if let Some(e) = request.exe_name {
        game.exe_name = Some(e);
    }
}

/// The first index at or after `from` that holds a comma, or the length.
pub open spec fn comma_from(s: Seq<char>, from: int) -> int
    decreases s.len() - from,
{
    if from < 0 || from >= s.len() {
        s.len() as int
    } else if s[from] == ',' {
        from
    } else {
        comma_from(s, from + 1)
    }
}

/// The base64 text of a cover image: the part after the first comma of a
/// data URL, up to any further comma; the whole text where it has no comma.
pub open spec fn cover_payload_text(s: Seq<char>) -> Seq<char> {
    let i = comma_from(s, 0);
    if i >= s.len() {
        s
    } else {
        s.subrange(i + 1, comma_from(s, i + 1))
    }
}

proof fn lemma_comma_from_bounds(s: Seq<char>, from: int)
    requires
        0 <= from <= s.len(),
    ensures
        from <= comma_from(s, from) <= s.len(),
    decreases s.len() - from,
{
    if from < s.len() && s[from] != ',' {
        lemma_comma_from_bounds(s, from + 1);
    }
}

fn find_comma(s: &Vec<char>, from: usize) -> (r: usize)
    requires
        from <= s@.len(),
    ensures
        r == comma_from(s@, from as int),
{
    let mut i = from;
    while i < s.len() && s[i] != ','
        invariant
            from <= i <= s@.len(),
            comma_from(s@, from as int) == comma_from(s@, i as int),
        decreases s@.len() - i,
    {
        i = i + 1;
    }
    i
}

/// The base64 text of a cover image, see `cover_payload_text`.
pub fn cover_payload(data: &str) -> (r: String)
    ensures
        r@ == cover_payload_text(data@),
{
    let s = chars_of(data);
    let i = find_comma(&s, 0);
    if i >= s.len() {
        return data.to_string();
    }
    proof {
        lemma_comma_from_bounds(s@, i + 1);
    }
    let j = find_comma(&s, i + 1);
    let mut out: Vec<char> = Vec::new();
    let mut k = i + 1;
    while k < j
        invariant
            i + 1 <= k <= j <= s@.len(),
            out@ == s@.subrange(i + 1, k as int),
        decreases j - k,
    {
        out.push(s[k]);
        k = k + 1;
        assert(out@ =~= s@.subrange(i + 1, k as int));
    }
    string_of(&out)
}

/// What base64's standard engine decodes from `s`: the bytes, or `None`
/// where `s` is not valid standard base64.
pub uninterp spec fn base64_decoded(s: Seq<char>) -> Option<Seq<u8>>;

/// Relies on base64's `STANDARD.decode`: the bytes that the text encodes, or
/// an error; which one depends on the text alone.
#[verifier::external_body]
fn decode_base64(s: &str) -> (r: Option<Vec<u8>>)
    ensures
        match r {
            Some(v) => base64_decoded(s@) == Some(v@),
            None => base64_decoded(s@) is None,
        },
{
    base64::engine::general_purpose::STANDARD.decode(s).ok()
}

/// The image bytes of a cover image given as base64 text or as a data URL.
pub fn decode_cover(data: &str) -> (r: Option<Vec<u8>>)
    ensures
        match r {
            Some(v) => base64_decoded(cover_payload_text(data@)) == Some(v@),
            None => base64_decoded(cover_payload_text(data@)) is None,
        },
{
    let payload = cover_payload(data);
    decode_base64(payload.as_str())
}

pub open spec fn ends_with(s: Seq<char>, suffix: Seq<char>) -> bool {
    s.len() >= suffix.len() && s.subrange(s.len() - suffix.len(), s.len() as int) == suffix
}

/// Whether a home directory can hold the default backup root: not a drive
/// root such as `C:\` or `C:/`, and longer than three bytes.
pub fn is_usable_home(path: &str) -> (r: bool)
    ensures
        r == (!ends_with(path@, DRIVE_ROOT_BACKSLASH@) && !ends_with(path@, DRIVE_ROOT_SLASH@)
            && path.spec_bytes().len() > 3),
{
    let s = chars_of(path);
    let n: usize = path.as_bytes().len();
    assert(n == path.spec_bytes().len());
    !has_suffix(&s, DRIVE_ROOT_BACKSLASH) && !has_suffix(&s, DRIVE_ROOT_SLASH) && n > 3
}

pub const DRIVE_ROOT_BACKSLASH: &'static str = ":\\";

pub const DRIVE_ROOT_SLASH: &'static str = ":/";

fn has_suffix(s: &Vec<char>, suffix: &str) -> (r: bool)
    ensures
        r == ends_with(s@, suffix@),
{
    let x = chars_of(suffix);
    if x.len() > s.len() {
        return false;
    }
    let start = s.len() - x.len();
    let mut i: usize = 0;
    while i < x.len()
        invariant
            start + x.len() == s.len(),
            x@ == suffix@,
            i <= x@.len(),
            forall|j: int| 0 <= j < i ==> x@[j] == s@[start + j],
        decreases x@.len() - i,
    {
        if x[i] != s[start + i] {
            assert(s@.subrange(start as int, s@.len() as int)[i as int] == s@[start + i]);
            return false;
        }
        i = i + 1;
    }
    assert(s@.subrange(start as int, s@.len() as int) =~= x@);
    true
}

} // verus!
