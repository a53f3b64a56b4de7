//! The snapshot store's decisions: what a snapshot is, how a new one is laid
//! out, how a listing is ordered, how a sidecar is renamed and how a
//! snapshot directory is checked against its sidecar. The file system is
//! read and written by the caller, which hands over what it found.
use crate::codec::{
    decode, encode, encoding, lemma_round_trip, parse_record, record_fields, RecordFields,
    SnapshotMetadata,
};
use crate::text::{chars_equal, chars_of};
use crate::timestamp::{formatted_stamp, instant_rank, Timestamp, FILE_NAME_PATTERN};
use vstd::prelude::*;
use vstd::multiset::{lemma_multiset_empty_len, Multiset};
use vstd::seq_lib::{to_multiset_build, to_multiset_insert, to_multiset_len};

verus! {

/// Reserved name of the sidecar file inside every snapshot directory.
pub const SIDECAR_NAME: &'static str = ".checkpoint-meta.json";

/// One captured copy of a game's save directory.
#[derive(Clone, Debug, PartialEq, Eq)]
pub struct Snapshot {
    pub id: String,
    pub game_id: String,
    pub timestamp: Timestamp,
    pub name: String,
    pub path: String,
    pub size: u64,
    pub file_count: usize,
}

/// Failures of the snapshot engine.
#[derive(Clone, Debug, PartialEq, Eq)]
pub enum SnapshotError {
    /// The save location is missing at creation time.
    SourceNotFound,
    /// No snapshot directory has the requested id.
    SnapshotNotFound,
    /// The snapshot has no sidecar.
    SnapshotMetadataNotFound,
    /// The sidecar is not a valid record.
    CorruptMetadata,
    /// An underlying read, write, copy or remove failed.
    IoError(String),
    /// No game has the requested id.
    GameNotFound,
    /// The system clock reads outside the instants a sidecar can hold.
    ClockOutOfRange,
    /// The byte total of a snapshot does not fit in 64 bits.
    SizeOverflow,
}

/// A request to snapshot a game, under an optional name.
#[derive(Clone, Debug, PartialEq, Eq)]
pub struct CreateSnapshotRequest {
    pub game_id: String,
    pub name: Option<String>,
}

/// A directory entry met while walking a snapshot or save tree.
#[derive(Clone, Debug, PartialEq, Eq)]
pub struct FileEntry {
    /// The entry's own file name, without its directory.
    pub name: String,
    /// How deep it lies below the walked directory: 0 for that directory
    /// itself, 1 for its own entries.
    pub depth: usize,
    /// Whether it is a regular file (not a directory, link or other entry).
    pub is_file: bool,
    /// Its length in bytes.
    pub size: u64,
}

/// A subdirectory of a game's snapshot directory, with its sidecar text if it has one.
#[derive(Clone, Debug, PartialEq, Eq)]
pub struct ListedDir {
    pub path: String,
    pub sidecar: Option<String>,
}

/// Running totals of a tree copy: bytes and regular files copied so far.
#[derive(Clone, Copy, Debug, PartialEq, Eq, Structural)]
pub struct CopyTally {
    pub total_bytes: u64,
    pub file_count: usize,
}

/// A snapshot whose directory is laid out but whose files are not copied yet.
#[derive(Clone, Debug, PartialEq, Eq)]
pub struct PendingSnapshot {
    pub id: String,
    pub game_id: String,
    pub timestamp: Timestamp,
    pub name: String,
    pub path: String,
}

/// The path `part` under `base`, as std's `Path::join` forms it.
pub uninterp spec fn joined(base: Seq<char>, part: Seq<char>) -> Seq<char>;

/// Relies on std's `Path::join`: the result depends on the two paths alone.
#[verifier::external_body]
pub fn join_path(base: &str, part: &str) -> (r: String)
    ensures
        r@ == joined(base@, part@),
{
    std::path::Path::new(base).join(part).to_string_lossy().to_string()
}

/// Relies on uuid's `Uuid::new_v4` and its hyphenated `to_string`: a random
/// identifier of 36 characters.
#[verifier::external_body]
pub(crate) fn new_id() -> (r: String)
    ensures
        r@.len() == 36,
{
    uuid::Uuid::new_v4().to_string()
}

/// The directory of snapshot `id` of game `game_id` under `root`.
pub open spec fn snapshot_dir(root: Seq<char>, game_id: Seq<char>, id: Seq<char>) -> Seq<char> {
    joined(joined(root, game_id), id)
}

pub fn snapshot_path(backup_root: &str, game_id: &str, snapshot_id: &str) -> (r: String)
    ensures
        r@ == snapshot_dir(backup_root@, game_id@, snapshot_id@),
{
    let game_dir = join_path(backup_root, game_id);
    join_path(game_dir.as_str(), snapshot_id)
}

/// Whether an entry counts as content of a snapshot: a regular file other
/// than the sidecar, which stands directly in the snapshot directory.
pub open spec fn is_content(e: FileEntry) -> bool {
    e.is_file && !(e.depth == 1 && e.name@ == SIDECAR_NAME@)
}

pub open spec fn content_size(es: Seq<FileEntry>) -> nat
    decreases es.len(),
{
    if es.len() == 0 {
        0
    } else {
        content_size(es.drop_last()) + if is_content(es.last()) {
            es.last().size as nat
        } else {
            0
        }
    }
}

pub open spec fn content_count(es: Seq<FileEntry>) -> nat
    decreases es.len(),
{
    if es.len() == 0 {
        0
    } else {
        content_count(es.drop_last()) + if is_content(es.last()) {
            1nat
        } else {
            0
        }
    }
}

/// Whether the content of a directory agrees with a record's size and file count.
pub open spec fn agrees(f: RecordFields, es: Seq<FileEntry>) -> bool {
    content_size(es) == f.4 && content_count(es) == f.5
}

impl CopyTally {
    pub fn new() -> (r: CopyTally)
        ensures
            r.total_bytes == 0 && r.file_count == 0,
    {
        CopyTally { total_bytes: 0, file_count: 0 }
    }

    /// Counts one more copied file of `size` bytes.
    pub fn record(&mut self, size: u64) -> (r: Result<(), SnapshotError>)
        ensures
            old(self).total_bytes + size <= u64::MAX && old(self).file_count < usize::MAX
                ==> r is Ok && final(self).total_bytes == old(self).total_bytes + size
                && final(self).file_count == old(self).file_count + 1,
            !(old(self).total_bytes + size <= u64::MAX && old(self).file_count < usize::MAX)
                ==> r == Err::<(), SnapshotError>(SnapshotError::SizeOverflow) && *final(self)
                == *old(self),
    {
        if size > u64::MAX - self.total_bytes || self.file_count == usize::MAX {
            return Err(SnapshotError::SizeOverflow);
        }
        self.total_bytes = self.total_bytes + size;
        self.file_count = self.file_count + 1;
        Ok(())
    }
}

/// Totals of the content entries of a walked tree: `None` where the byte
/// total does not fit in 64 bits.
pub fn tally_entries(entries: &Vec<FileEntry>) -> (r: Option<CopyTally>)
    ensures
        r matches Some(t) ==> t.total_bytes == content_size(entries@) && t.file_count
            == content_count(entries@),
        r is None ==> content_size(entries@) > u64::MAX,
{
    let mut tally = CopyTally::new();
    let mut i: usize = 0;
    let sidecar = chars_of(SIDECAR_NAME);
    while i < entries.len()
        invariant
            i <= entries@.len(),
            sidecar@ == SIDECAR_NAME@,
            tally.total_bytes == content_size(entries@.subrange(0, i as int)),
            tally.file_count == content_count(entries@.subrange(0, i as int)),
            tally.file_count <= i,
        decreases entries@.len() - i,
    {
        let e = &entries[i];
        proof {
            assert(entries@.subrange(0, i + 1).drop_last() =~= entries@.subrange(0, i as int));
        }
        if e.is_file && !(e.depth == 1 && chars_equal(&chars_of(e.name.as_str()), &sidecar)) {
            if e.size > u64::MAX - tally.total_bytes {
                proof {
                    lemma_content_size_prefix(entries@, i + 1);
                }
                return None;
            }
            tally.total_bytes = tally.total_bytes + e.size;
            tally.file_count = tally.file_count + 1;
        }
        i = i + 1;
    }
    assert(entries@.subrange(0, i as int) =~= entries@);
    Some(tally)
}

proof fn lemma_content_size_prefix(es: Seq<FileEntry>, k: int)
    requires
        0 <= k <= es.len(),
    ensures
        content_size(es.subrange(0, k)) <= content_size(es),
    decreases es.len() - k,
{
    if k < es.len() {
        lemma_content_size_prefix(es, k + 1);
        assert(es.subrange(0, k + 1).drop_last() =~= es.subrange(0, k));
    } else {
        assert(es.subrange(0, k) =~= es);
    }
}

/// Checks a snapshot directory against its sidecar. `sidecar` is the
/// sidecar's text, if the directory has one; `entries` are the entries found
/// by walking the directory. No sidecar gives `false`; a sidecar that is not
/// a valid record is an error; otherwise the result says whether the content
/// files' byte total and count equal the recorded ones.
pub fn verify_snapshot(sidecar: Option<&str>, entries: &Vec<FileEntry>) -> (r: Result<
    bool,
    SnapshotError,
>)
    ensures
        sidecar is None ==> r == Ok::<bool, SnapshotError>(false),
        sidecar matches Some(text) ==> (parse_record(text@) is None <==> r == Err::<
            bool,
            SnapshotError,
        >(SnapshotError::CorruptMetadata)),
        sidecar is Some && parse_record(sidecar->0@) is Some ==> r == Ok::<bool, SnapshotError>(
            agrees(parse_record(sidecar->0@)->0, entries@),
        ),
{
    let text = match sidecar {
        None => return Ok(false),
        Some(t) => t,
    };
    let m = match decode(text) {
        Ok(m) => m,
        Err(_) => return Err(SnapshotError::CorruptMetadata),
    };
    let result = match tally_entries(entries) {
        Some(t) => t.total_bytes == m.size && t.file_count == m.file_count,
        None => false,
    };
    Ok(result)
}

/// The record a snapshot's sidecar holds.
pub open spec fn record_of(s: Snapshot) -> SnapshotMetadata {
    SnapshotMetadata {
        id: s.id,
        game_id: s.game_id,
        timestamp: s.timestamp,
        name: s.name,
        size: s.size,
        file_count: s.file_count,
    }
}

/// Lays out a new snapshot of game `game_id` under `backup_root`: a fresh id,
/// the current instant, its directory, and its name (the requested one, else
/// the instant as `YYYY-MM-DD_HH-MM-SS`). A save location that does not exist
/// is refused.
pub fn begin_snapshot(
    game_id: &str,
    save_location_exists: bool,
    requested_name: Option<String>,
    backup_root: &str,
) -> (r: Result<PendingSnapshot, SnapshotError>)
    ensures
        !save_location_exists ==> r == Err::<PendingSnapshot, SnapshotError>(
            SnapshotError::SourceNotFound,
        ),
        save_location_exists ==> r is Ok || r == Err::<PendingSnapshot, SnapshotError>(
            SnapshotError::ClockOutOfRange,
        ),
        r matches Ok(p) ==> {
            &&& p.game_id@ == game_id@
            &&& p.timestamp.wf()
            &&& p.id@.len() == 36
            &&& p.path@ == snapshot_dir(backup_root@, game_id@, p.id@)
            &&& p.name@ == match requested_name {
                Some(n) => n@,
                None => formatted_stamp(p.timestamp, FILE_NAME_PATTERN@),
            }
        },
{
    if !save_location_exists {
        return Err(SnapshotError::SourceNotFound);
    }
    let timestamp = match Timestamp::now() {
        Some(t) => t,
        None => return Err(SnapshotError::ClockOutOfRange),
    };
    let id = new_id();
    let name = match requested_name {
        Some(n) => n,
        None => timestamp.format(FILE_NAME_PATTERN),
    };
    let path = snapshot_path(backup_root, game_id, id.as_str());
    Ok(PendingSnapshot { id, game_id: game_id.to_string(), timestamp, name, path })
}

/// Completes a snapshot once its files are copied: the snapshot, and the
/// text of its sidecar.
pub fn finish_snapshot(pending: PendingSnapshot, tally: CopyTally) -> (r: (Snapshot, String))
    requires
        pending.timestamp.wf(),
    ensures
        r.0.id == pending.id,
        r.0.game_id == pending.game_id,
        r.0.timestamp == pending.timestamp,
        r.0.name == pending.name,
        r.0.path == pending.path,
        r.0.size == tally.total_bytes,
        r.0.file_count == tally.file_count,
        r.1@ == encoding(record_of(r.0)),
        parse_record(r.1@) == Some(record_fields(record_of(r.0))),
{
    let snap = Snapshot {
        id: pending.id,
        game_id: pending.game_id,
        timestamp: pending.timestamp,
        name: pending.name,
        path: pending.path,
        size: tally.total_bytes,
        file_count: tally.file_count,
    };
    let meta = SnapshotMetadata {
        id: snap.id.clone(),
        game_id: snap.game_id.clone(),
        timestamp: snap.timestamp,
        name: snap.name.clone(),
        size: snap.size,
        file_count: snap.file_count,
    };
    let text = encode(&meta);
    proof {
        crate::codec::lemma_encoding_views(meta, record_of(snap));
        lemma_round_trip(meta);
    }
    (snap, text)
}

/// `f` with its name replaced by `name`.
pub open spec fn renamed(f: RecordFields, name: Seq<char>) -> RecordFields {
    (f.0, f.1, f.2, name, f.4, f.5)
}

/// Rewrites a sidecar with a new name. `sidecar` is the current sidecar
/// text, if the snapshot has one; the result is the new text. Only the name
/// changes.
pub fn rename_snapshot(sidecar: Option<&str>, new_name: &str) -> (r: Result<String, SnapshotError>)
    ensures
        sidecar is None ==> r == Err::<String, SnapshotError>(
            SnapshotError::SnapshotMetadataNotFound,
        ),
        sidecar matches Some(text) ==> (parse_record(text@) is None <==> r == Err::<
            String,
            SnapshotError,
        >(SnapshotError::CorruptMetadata)),
        sidecar is Some && parse_record(sidecar->0@) is Some ==> (r matches Ok(out) && parse_record(
            out@,
        ) == Some(renamed(parse_record(sidecar->0@)->0, new_name@))),
{
    let text = match sidecar {
        None => return Err(SnapshotError::SnapshotMetadataNotFound),
        Some(t) => t,
    };
    let mut m = match decode(text) {
        Ok(m) => m,
        Err(_) => return Err(SnapshotError::CorruptMetadata),
    };
    m.name = new_name.to_string();
    let out = encode(&m);
    proof {
        lemma_round_trip(m);
    }
    Ok(out)
}

/// Renaming a sidecar twice to the same name reads back the same as
/// renaming it once, and keeps its id, game, instant, size and file count.
pub proof fn lemma_rename_twice(t0: Seq<char>, t1: Seq<char>, t2: Seq<char>, name: Seq<char>)
    requires
        parse_record(t0) is Some,
        parse_record(t1) == Some(renamed(parse_record(t0)->0, name)),
        parse_record(t2) == Some(renamed(parse_record(t1)->0, name)),
    ensures
        parse_record(t2) == parse_record(t1),
        parse_record(t2) == Some(renamed(parse_record(t0)->0, name)),
{
}

/// Whether a sequence of snapshots runs from the latest instant to the earliest.
pub open spec fn latest_first(s: Seq<Snapshot>) -> bool {
    forall|i: int, j: int|
        0 <= i < j < s.len() ==> instant_rank(#[trigger] s[i].timestamp) >= instant_rank(
            #[trigger] s[j].timestamp,
        )
}

pub open spec fn all_wf(s: Seq<Snapshot>) -> bool {
    forall|i: int| 0 <= i < s.len() ==> (#[trigger] s[i]).timestamp.wf()
}

/// A snapshot as plain values: its record's fields and its path.
pub type SnapView = (RecordFields, Seq<char>);

pub open spec fn snap_view(s: Snapshot) -> SnapView {
    (record_fields(record_of(s)), s.path@)
}

pub open spec fn views(s: Seq<Snapshot>) -> Seq<SnapView> {
    s.map_values(|x: Snapshot| snap_view(x))
}

pub open spec fn view_rank(v: SnapView) -> int {
    instant_rank(v.0.2)
}

/// The first index from `j` on whose instant is not later than rank `r`.
pub open spec fn first_not_later(v: Seq<SnapView>, r: int, j: int) -> int
    decreases v.len() - j,
{
    if j < 0 || j >= v.len() {
        v.len() as int
    } else if view_rank(v[j]) <= r {
        j
    } else {
        first_not_later(v, r, j + 1)
    }
}

/// `s` ordered latest first; of two with the same instant, the one earlier
/// in `s` comes first.
pub open spec fn sort_views(s: Seq<SnapView>) -> Seq<SnapView>
    decreases s.len(),
{
    if s.len() == 0 {
        s
    } else {
        let rest = sort_views(s.drop_first());
        rest.insert(first_not_later(rest, view_rank(s[0]), 0), s[0])
    }
}

/// Orders snapshots from the latest to the earliest; snapshots of the same
/// instant keep their order.
pub fn sort_latest_first(items: Vec<Snapshot>) -> (r: Vec<Snapshot>)
    requires
        all_wf(items@),
    ensures
        latest_first(r@),
        all_wf(r@),
        r@.to_multiset() == items@.to_multiset(),
        views(r@) == sort_views(views(items@)),
{
    let ghost orig = items@;
    let mut rest = items;
    let mut out: Vec<Snapshot> = Vec::new();
    proof {
        to_multiset_len(out@);
        lemma_multiset_empty_len(out@.to_multiset());
        assert(out@.to_multiset() =~= Multiset::empty());
    }
    while rest.len() > 0
        invariant
            latest_first(out@),
            all_wf(out@),
            all_wf(rest@),
            out@.to_multiset().add(rest@.to_multiset()) == items@.to_multiset(),
            orig == items@,
            rest@.len() <= orig.len(),
            rest@ == orig.subrange(0, rest@.len() as int),
            views(out@) == sort_views(views(orig).subrange(rest@.len() as int, orig.len() as int)),
        decreases rest@.len(),
    {
        let ghost before = rest@;
        let x = rest.pop().unwrap();
        proof {
            let k = before.len() as int;
            let sub = views(orig).subrange(k - 1, orig.len() as int);
            assert(before[k - 1] == orig[k - 1]);
            assert(x == orig[k - 1]);
            assert(sub.drop_first() =~= views(orig).subrange(k, orig.len() as int));
            assert(sub[0] == snap_view(x));
            assert(rest@ =~= orig.subrange(0, rest@.len() as int));
        }
        proof {
            broadcast use to_multiset_build;
            assert(before =~= rest@.push(x));
            assert(before.to_multiset() == rest@.to_multiset().insert(x));
        }
        let xr = x.timestamp.rank();
        let mut j: usize = 0;
        while j < out.len() && out[j].timestamp.rank() > xr
            invariant
                j <= out@.len(),
                all_wf(out@),
                x.timestamp.wf(),
                xr == instant_rank(x.timestamp),
                forall|k: int| 0 <= k < j ==> instant_rank(#[trigger] out@[k].timestamp) > xr,
                first_not_later(views(out@), xr as int, 0) == first_not_later(views(out@), xr as int, j as int),
            decreases out@.len() - j,
        {
            j = j + 1;
        }
        proof {
            if j < out@.len() {
                assert(views(out@)[j as int] == snap_view(out@[j as int]));
            }
        }
        let ghost prev = out@;
        out.insert(j, x);
        proof {
            broadcast use to_multiset_insert;
            assert(out@ == prev.insert(j as int, x));
            assert(out@.to_multiset() == prev.to_multiset().insert(x));
            assert(views(out@) =~= views(prev).insert(j as int, snap_view(x)));
            assert forall|a: int, b: int| 0 <= a < b < out@.len() implies instant_rank(
                #[trigger] out@[a].timestamp,
            ) >= instant_rank(#[trigger] out@[b].timestamp) by {
                if b < j {
                } else if a < j && b == j {
                } else if a < j {
                    assert(out@[b] == prev[b - 1]);
                    if j < prev.len() {
                        assert(instant_rank(prev[j as int].timestamp) <= xr);
                        assert(instant_rank(prev[b - 1].timestamp) <= instant_rank(prev[j as int].timestamp));
                    }
                } else if a == j {
                    assert(out@[b] == prev[b - 1]);
                    assert(instant_rank(prev[j as int].timestamp) <= xr);
                    if b - 1 > j {
                        assert(instant_rank(prev[b - 1].timestamp) <= instant_rank(prev[j as int].timestamp));
                    }
                } else {
                    assert(out@[a] == prev[a - 1]);
                    assert(out@[b] == prev[b - 1]);
                }
            }
            assert forall|k: int| 0 <= k < out@.len() implies (#[trigger] out@[k]).timestamp.wf() by {
                if k < j {
                } else if k > j {
                    assert(out@[k] == prev[k - 1]);
                }
            }
        }
    }
    proof {
        to_multiset_len(rest@);
        lemma_multiset_empty_len(rest@.to_multiset());
        assert(rest@.to_multiset() =~= Multiset::empty());
        assert(views(orig).subrange(0, orig.len() as int) =~= views(orig));
        assert(out@.to_multiset().add(Multiset::empty()) =~= out@.to_multiset());
    }
    out
}

/// Whether snapshot `s` is the one that directory `d` describes.
pub open spec fn listed_from(s: Snapshot, d: ListedDir) -> bool {
    &&& d.sidecar is Some
    &&& s.path@ == d.path@
    &&& s.timestamp.wf()
    &&& parse_record(d.sidecar->0@) == Some(record_fields(record_of(s)))
}

/// The records and paths of the directories with a readable sidecar, in order.
pub open spec fn dir_views(dirs: Seq<ListedDir>) -> Seq<SnapView>
    decreases dirs.len(),
{
    if dirs.len() == 0 {
        Seq::empty()
    } else {
        let d = dirs.last();
        let p = dir_views(dirs.drop_last());
        if d.sidecar is Some && parse_record(d.sidecar->0@) is Some {
            p.push((parse_record(d.sidecar->0@)->0, d.path@))
        } else {
            p
        }
    }
}

/// How many of `dirs` have a sidecar.
pub open spec fn sidecar_count(dirs: Seq<ListedDir>) -> nat
    decreases dirs.len(),
{
    if dirs.len() == 0 {
        0
    } else {
        sidecar_count(dirs.drop_last()) + if dirs.last().sidecar is Some {
            1nat
        } else {
            0
        }
    }
}

/// Whether directory `d` has a sidecar that is not a valid record.
pub open spec fn has_corrupt_sidecar(d: ListedDir) -> bool {
    d.sidecar is Some && parse_record(d.sidecar->0@) is None
}

/// Whether `v` lists the snapshots that `dirs` describe, latest first: each
/// comes from one of the directories, and each directory with a sidecar
/// gives one of them.
pub open spec fn is_listing(dirs: Seq<ListedDir>, v: Seq<Snapshot>) -> bool {
    &&& latest_first(v)
    &&& forall|k: int| 0 <= k < v.len() ==> from_some_dir(dirs, #[trigger] v[k])
    &&& forall|i: int| 0 <= i < dirs.len() && (#[trigger] dirs[i]).sidecar is Some ==> in_listing(v, dirs[i])
}

/// Whether some directory of `dirs` describes `s`.
pub open spec fn from_some_dir(dirs: Seq<ListedDir>, s: Snapshot) -> bool {
    exists|i: int| 0 <= i < dirs.len() && listed_from(s, dirs[i])
}

/// Whether some snapshot of `v` is the one that `d` describes.
pub open spec fn in_listing(v: Seq<Snapshot>, d: ListedDir) -> bool {
    exists|k: int| 0 <= k < v.len() && listed_from(v[k], d)
}

/// The snapshot that a record found in directory `path` describes.
pub fn snapshot_from_record(m: SnapshotMetadata, path: String) -> (r: Snapshot)
    ensures
        r.id == m.id,
        r.game_id == m.game_id,
        r.timestamp == m.timestamp,
        r.name == m.name,
        r.size == m.size,
        r.file_count == m.file_count,
        r.path == path,
{
    Snapshot {
        id: m.id,
        game_id: m.game_id,
        timestamp: m.timestamp,
        name: m.name,
        path,
        size: m.size,
        file_count: m.file_count,
    }
}

/// The snapshots of one game, from the subdirectories of its snapshot
/// directory: those without a sidecar are skipped, a sidecar that is not a
/// valid record is an error, and the rest come latest first.
pub fn list_snapshots(dirs: Vec<ListedDir>) -> (r: Result<Vec<Snapshot>, SnapshotError>)
    ensures
        (exists|i: int| 0 <= i < dirs@.len() && has_corrupt_sidecar(#[trigger] dirs@[i])) <==> r
            == Err::<Vec<Snapshot>, SnapshotError>(SnapshotError::CorruptMetadata),
        r is Err ==> r == Err::<Vec<Snapshot>, SnapshotError>(SnapshotError::CorruptMetadata),
        r matches Ok(v) ==> is_listing(dirs@, v@) && v@.len() == sidecar_count(dirs@) && views(v@)
            == sort_views(dir_views(dirs@)),
{
    let mut items: Vec<Snapshot> = Vec::new();
    let ghost mut origin: Seq<int> = Seq::empty();
    let ghost mut slot: Seq<int> = Seq::empty();
    let mut i: usize = 0;
    while i < dirs.len()
        invariant
            i <= dirs@.len(),
            all_wf(items@),
            origin.len() == items@.len(),
            items@.len() == sidecar_count(dirs@.subrange(0, i as int)),
            views(items@) == dir_views(dirs@.subrange(0, i as int)),
            slot.len() == i,
            forall|k: int|
                0 <= k < items@.len() ==> 0 <= #[trigger] origin[k] < i && listed_from(
                    items@[k],
                    dirs@[origin[k]],
                ),
            forall|j: int|
                0 <= j < i && (#[trigger] dirs@[j]).sidecar is Some ==> 0 <= slot[j] < items@.len()
                    && listed_from(items@[slot[j]], dirs@[j]),
            forall|j: int| 0 <= j < i ==> !has_corrupt_sidecar(#[trigger] dirs@[j]),
        decreases dirs@.len() - i,
    {
        proof {
            assert(dirs@.subrange(0, i + 1).drop_last() =~= dirs@.subrange(0, i as int));
        }
        let d = &dirs[i];
        match &d.sidecar {
            None => {
                proof {
                    slot = slot.push(-1);
                }
            },
            Some(text) => {
                let m = match decode(text.as_str()) {
                    Ok(m) => m,
                    Err(_) => {
                        assert(has_corrupt_sidecar(dirs@[i as int]));
                        return Err(SnapshotError::CorruptMetadata);
                    },
                };
                let s = snapshot_from_record(m, d.path.clone());
                let ghost prev = items@;
                items.push(s);
                proof {
                    assert(record_fields(record_of(s)) == record_fields(m));
                    assert(listed_from(s, dirs@[i as int]));
                    assert(views(items@) =~= views(prev).push(snap_view(s)));
                    origin = origin.push(i as int);
                    slot = slot.push(prev.len() as int);
                    assert forall|k: int| 0 <= k < items@.len() implies 0 <= #[trigger] origin[k] < i + 1
                        && listed_from(items@[k], dirs@[origin[k]]) by {
                        if k < prev.len() {
                            assert(items@[k] == prev[k]);
                        }
                    }
                    assert forall|j: int| 0 <= j < i + 1 && (#[trigger] dirs@[j]).sidecar is Some implies 0
                        <= slot[j] < items@.len() && listed_from(items@[slot[j]], dirs@[j]) by {
                        if j < i {
                            assert(items@[slot[j]] == prev[slot[j]]);
                        }
                    }
                }
            },
        }
        i = i + 1;
    }
    let ghost unsorted = items@;
    let v = sort_latest_first(items);
    proof {
        lemma_listing_kept(dirs@, unsorted, v@, origin, slot);
        assert(dirs@.subrange(0, i as int) =~= dirs@);
        to_multiset_len(v@);
        to_multiset_len(unsorted);
    }
    Ok(v)
}

proof fn lemma_listing_kept(
    dirs: Seq<ListedDir>,
    unsorted: Seq<Snapshot>,
    v: Seq<Snapshot>,
    origin: Seq<int>,
    slot: Seq<int>,
)
    requires
        latest_first(v),
        v.to_multiset() == unsorted.to_multiset(),
        origin.len() == unsorted.len(),
        slot.len() == dirs.len(),
        forall|k: int|
            0 <= k < unsorted.len() ==> 0 <= #[trigger] origin[k] < dirs.len() && listed_from(
                unsorted[k],
                dirs[origin[k]],
            ),
        forall|j: int|
            0 <= j < dirs.len() && (#[trigger] dirs[j]).sidecar is Some ==> 0 <= slot[j] < unsorted.len()
                && listed_from(unsorted[slot[j]], dirs[j]),
    ensures
        is_listing(dirs, v),
{
    assert forall|k: int| 0 <= k < v.len() implies from_some_dir(dirs, #[trigger] v[k]) by {
        vstd::seq_lib::to_multiset_contains(v, v[k]);
        vstd::seq_lib::to_multiset_contains(unsorted, v[k]);
        assert(unsorted.contains(v[k]));
        let w = choose|w: int| 0 <= w < unsorted.len() && unsorted[w] == v[k];
        assert(listed_from(unsorted[w], dirs[origin[w]]));
    }
    assert forall|j: int| 0 <= j < dirs.len() && (#[trigger] dirs[j]).sidecar is Some implies in_listing(v, dirs[j]) by {
        let w = slot[j];
        vstd::seq_lib::to_multiset_contains(unsorted, unsorted[w]);
        vstd::seq_lib::to_multiset_contains(v, unsorted[w]);
        assert(v.contains(unsorted[w]));
        let k = choose|k: int| 0 <= k < v.len() && v[k] == unsorted[w];
        assert(listed_from(v[k], dirs[j]));
    }
}

/// A listing made after a directory is gone holds no snapshot at its path.
pub proof fn lemma_removed_not_listed(dirs: Seq<ListedDir>, v: Seq<Snapshot>, path: Seq<char>)
    requires
        is_listing(dirs, v),
        forall|i: int| 0 <= i < dirs.len() ==> (#[trigger] dirs[i]).path@ != path,
    ensures
        forall|k: int| 0 <= k < v.len() ==> (#[trigger] v[k]).path@ != path,
{
    assert forall|k: int| 0 <= k < v.len() implies (#[trigger] v[k]).path@ != path by {
        assert(from_some_dir(dirs, v[k]));
        let i = choose|i: int| 0 <= i < dirs.len() && listed_from(v[k], dirs[i]);
        assert(dirs[i].path@ != path);
    }
}

proof fn lemma_content_concat(a: Seq<FileEntry>, b: Seq<FileEntry>)
    ensures
        content_count(a + b) == content_count(a) + content_count(b),
        content_size(a + b) == content_size(a) + content_size(b),
    decreases b.len(),
{
    if b.len() == 0 {
        assert(a + b =~= a);
    } else {
        lemma_content_concat(a, b.drop_last());
        assert((a + b).drop_last() =~= a + b.drop_last());
    }
}

/// A snapshot directory that agrees with its record stops agreeing when one
/// content file is added to it, and one that agrees stops agreeing when one
/// content file is taken from it.
pub proof fn lemma_drift_detected(m: RecordFields, a: Seq<FileEntry>, e: FileEntry, b: Seq<FileEntry>)
    requires
        is_content(e),
    ensures
        agrees(m, a + b) ==> !agrees(m, a + seq![e] + b),
        agrees(m, a + seq![e] + b) ==> !agrees(m, a + b),
{
    lemma_content_concat(a, b);
    lemma_content_concat(a + seq![e], b);
    lemma_content_concat(a, seq![e]);
    assert(seq![e].drop_last() =~= Seq::<FileEntry>::empty());
    assert(seq![e].last() == e);
    assert(content_count(Seq::<FileEntry>::empty()) == 0);
    assert(content_count(seq![e]) == 1);
}

/// Three snapshots of three distinct instants, listed latest first, come
/// out as the latest, the middle and the earliest.
pub proof fn lemma_three_latest_first(v: Seq<Snapshot>, a: SnapView, b: SnapView, c: SnapView)
    requires
        latest_first(v),
        v.len() == 3,
        forall|k: int| 0 <= k < 3 ==> #[trigger] snap_view(v[k]) == a || snap_view(v[k]) == b || snap_view(v[k]) == c,
        exists|k: int| 0 <= k < 3 && #[trigger] snap_view(v[k]) == a,
        exists|k: int| 0 <= k < 3 && #[trigger] snap_view(v[k]) == b,
        exists|k: int| 0 <= k < 3 && #[trigger] snap_view(v[k]) == c,
        view_rank(a) < view_rank(b) < view_rank(c),
    ensures
        views(v) == seq![c, b, a],
{
    let ka = choose|k: int| 0 <= k < 3 && #[trigger] snap_view(v[k]) == a;
    let kb = choose|k: int| 0 <= k < 3 && #[trigger] snap_view(v[k]) == b;
    let kc = choose|k: int| 0 <= k < 3 && #[trigger] snap_view(v[k]) == c;
    assert(view_rank(snap_view(v[ka])) == instant_rank(v[ka].timestamp));
    assert(view_rank(snap_view(v[kb])) == instant_rank(v[kb].timestamp));
    assert(view_rank(snap_view(v[kc])) == instant_rank(v[kc].timestamp));
    if kc != 0 {
        assert(instant_rank(v[0].timestamp) >= instant_rank(v[kc].timestamp));
        assert(snap_view(v[0]) == a || snap_view(v[0]) == b || snap_view(v[0]) == c);
        assert(view_rank(snap_view(v[0])) == instant_rank(v[0].timestamp));
    }
    assert(kc == 0);
    if kb != 1 {
        assert(kb == 2);
        assert(instant_rank(v[1].timestamp) >= instant_rank(v[2].timestamp));
        assert(snap_view(v[1]) == a || snap_view(v[1]) == b || snap_view(v[1]) == c);
        assert(view_rank(snap_view(v[1])) == instant_rank(v[1].timestamp));
    }
    assert(kb == 1);
    assert(ka == 2);
    assert(views(v) =~= seq![c, b, a]);
}

} // verus!
