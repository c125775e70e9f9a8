//! Snapshots of the data file and the photo archive: naming, recognition,
//! listing order, pruning, and the bookkeeping of archived photos.
use vstd::prelude::*;
use crate::order::{Key, SortKey, is_stable_sort, precedes, stable_sort, stable_sort_witness};
use crate::paths::{file_name, stem_of, path_file_name, name_stem, thumb_name};
use crate::text::{
    all_digits, concat, contains_char, decimal, ends_with, is_blank, is_digit,
    lemma_decimal_value, parse_decimal_u64, parse_u64, push_decimal, starts_with, str_eq,
    str_is_blank, substring,
};

verus! {

/// One snapshot of the data file, as listed to the user.
#[derive(Debug, Clone)]
pub struct BackupInfo {
    pub file_name: String,
    pub stamp_secs: u64,
    pub size_bytes: u64,
}

/// How many snapshots are kept.
pub const KEPT_SNAPSHOTS: usize = 5;

/// The name a snapshot taken at `stamp` (seconds since the epoch) gets.
pub open spec fn snapshot_name(stamp: nat) -> Seq<char> {
    "data-"@ + decimal(stamp) + ".json"@
}

/// The file name for a snapshot taken at `stamp`: `data-<stamp>.json`.
pub fn snapshot_file_name(stamp: u64) -> (r: String)
    ensures
        r@ == snapshot_name(stamp as nat),
{
    let mut r = "data-".to_owned();
    push_decimal(&mut r, stamp);
    r.append(".json");
    r
}

/// A name of the form `data-*.json`.
pub open spec fn is_snapshot(name: Seq<char>) -> bool {
    "data-"@.is_prefix_of(name) && ".json"@.is_suffix_of(name)
}

/// Whether `name` looks like a snapshot (`data-*.json`).
pub fn is_snapshot_name(name: &str) -> (r: bool)
    ensures
        r == is_snapshot(name@),
{
    starts_with(name, "data-") && ends_with(name, ".json")
}

/// The time stamp a snapshot name carries: the text between `data-` and
/// `.json`, read as a decimal `u64`.
pub open spec fn snapshot_stamp(name: Seq<char>) -> Option<u64> {
    if name.len() >= 10 && "data-"@.is_prefix_of(name) && ".json"@.is_suffix_of(name) {
        parse_u64(name.subrange(5, name.len() - 5))
    } else {
        None
    }
}

/// The time stamp in a snapshot's name, if it is one.
pub fn parse_snapshot_stamp(name: &str) -> (r: Option<u64>)
    ensures
        r == snapshot_stamp(name@),
{
    proof {
        reveal_strlit("data-");
        reveal_strlit(".json");
    }
    let n: usize = name.unicode_len();
    if n >= 10 && starts_with(name, "data-") && ends_with(name, ".json") {
        let mid = substring(name, 5, n - 5);
        parse_decimal_u64(mid.as_str())
    } else {
        None
    }
}

/// A snapshot name that may be restored: `data-*.json` holding no path
/// separator of any platform.
pub open spec fn is_restorable(name: Seq<char>) -> bool {
    is_snapshot(name) && !name.contains('/') && !name.contains('\\')
}

/// Whether `name` may be restored; anything else is refused so that no path
/// outside the snapshot directory can be reached.
pub fn is_restorable_name(name: &str) -> (r: bool)
    ensures
        r == is_restorable(name@),
{
    is_snapshot_name(name) && !contains_char(name, '/') && !contains_char(name, '\\')
}

/// The snapshots among directory entries `(name, size in bytes)`, in the
/// order the entries come.
pub open spec fn recognized_backups(entries: Seq<(String, u64)>) -> Seq<BackupInfo>
    decreases entries.len(),
{
    if entries.len() == 0 {
        Seq::empty()
    } else {
        let rest = recognized_backups(entries.drop_last());
        let e = entries.last();
        match snapshot_stamp(e.0@) {
            Some(t) => rest.push(BackupInfo { file_name: e.0, stamp_secs: t, size_bytes: e.1 }),
            None => rest,
        }
    }
}

/// The key that orders snapshots by time.
pub open spec fn stamp_key() -> spec_fn(BackupInfo) -> Key {
    |b: BackupInfo| (b.stamp_secs as int, Seq::<char>::empty())
}

/// The snapshots among directory entries `(name, size in bytes)`, newest
/// first; snapshots with the same time stamp keep the order of the entries.
pub fn list_backups(entries: Vec<(String, u64)>) -> (r: Vec<BackupInfo>)
    ensures
        is_stable_sort(r@, recognized_backups(entries@), stamp_key(), true),
{
    let ghost src = entries@;
    let n: usize = entries.len();
    let mut rest = entries;
    let mut found: Vec<BackupInfo> = Vec::new();
    let mut keys: Vec<SortKey> = Vec::new();
    let mut i: usize = 0;
    while i < n
        invariant
            n == src.len(),
            i <= n,
            rest@ == src.skip(i as int),
            found@ == recognized_backups(src.take(i as int)),
            keys.len() == found.len(),
            forall|k: int| 0 <= k < found.len() ==> #[trigger] keys[k]@ == (stamp_key())(found[k]),
        decreases n - i,
    {
        assert(src.take(i + 1).drop_last() =~= src.take(i as int));
        let (name, size) = rest.remove(0);
        match parse_snapshot_stamp(name.as_str()) {
            Some(t) => {
                found.push(BackupInfo { file_name: name, stamp_secs: t, size_bytes: size });
                keys.push(SortKey { rank: t, text: String::new() });
            },
            None => {},
        }
        assert(rest@ =~= src.skip(i + 1));
        i = i + 1;
    }
    assert(src.take(n as int) =~= src);
    stable_sort(found, keys, true, Ghost(stamp_key()))
}

/// The snapshots among `names` that carry a time stamp, in their order.
pub open spec fn stamped_snapshots(names: Seq<String>) -> Seq<String>
    decreases names.len(),
{
    if names.len() == 0 {
        Seq::empty()
    } else {
        let rest = stamped_snapshots(names.drop_last());
        if snapshot_stamp(names.last()@) is Some {
            rest.push(names.last())
        } else {
            rest
        }
    }
}

/// The time stamp of a snapshot name, 0 for a name without one.
pub open spec fn stamp_of(name: Seq<char>) -> int {
    match snapshot_stamp(name) {
        Some(t) => t as int,
        None => 0,
    }
}

/// The key that orders snapshots by time stamp, then by name.
pub open spec fn snapshot_key() -> spec_fn(String) -> Key {
    |s: String| (stamp_of(s@), s@)
}

/// What pruning deletes of the snapshots sorted oldest first: all but the
/// last `KEPT_SNAPSHOTS`.
pub open spec fn all_but_newest(sorted: Seq<String>) -> Seq<String> {
    if sorted.len() > KEPT_SNAPSHOTS {
        sorted.take(sorted.len() - KEPT_SNAPSHOTS)
    } else {
        Seq::empty()
    }
}

/// The snapshots to delete so that only the newest `KEPT_SNAPSHOTS` remain:
/// the names among `names` that carry a time stamp, sorted by stamp (then
/// by name), except the last `KEPT_SNAPSHOTS` of them. A `data-*.json` name
/// without a numeric stamp is not a snapshot and is left alone.
pub fn snapshots_to_prune(names: Vec<String>) -> (r: Vec<String>)
    ensures
        exists|sorted: Seq<String>|
            #![trigger is_stable_sort(sorted, stamped_snapshots(names@), snapshot_key(), false)]
            is_stable_sort(sorted, stamped_snapshots(names@), snapshot_key(), false) && r@
                == all_but_newest(sorted),
{
    let ghost src = names@;
    let n: usize = names.len();
    let mut rest = names;
    let mut found: Vec<String> = Vec::new();
    let mut keys: Vec<SortKey> = Vec::new();
    let mut i: usize = 0;
    while i < n
        invariant
            n == src.len(),
            i <= n,
            rest@ == src.skip(i as int),
            found@ == stamped_snapshots(src.take(i as int)),
            keys.len() == found.len(),
            forall|k: int| 0 <= k < found.len() ==> #[trigger] keys[k]@ == (snapshot_key())(found[k]),
        decreases n - i,
    {
        assert(src.take(i + 1).drop_last() =~= src.take(i as int));
        let name = rest.remove(0);
        match parse_snapshot_stamp(name.as_str()) {
            Some(t) => {
                let text = name.clone();
                found.push(name);
                keys.push(SortKey { rank: t, text });
            },
            None => {},
        }
        assert(rest@ =~= src.skip(i + 1));
        i = i + 1;
    }
    assert(src.take(n as int) =~= src);
    let mut sorted = stable_sort(found, keys, false, Ghost(snapshot_key()));
    let ghost all = sorted@;
    if sorted.len() > KEPT_SNAPSHOTS {
        let drop: usize = sorted.len() - KEPT_SNAPSHOTS;
        sorted.truncate(drop);
        assert(sorted@ =~= all.take(drop as int));
    } else {
        sorted.clear();
    }
    sorted
}

/// Every name kept by `stamped_snapshots` carries a time stamp.
proof fn lemma_stamped_snapshots_have_stamps(names: Seq<String>)
    ensures
        forall|k: int|
            0 <= k < stamped_snapshots(names).len() ==> #[trigger] snapshot_stamp(
                stamped_snapshots(names)[k]@,
            ) is Some,
    decreases names.len(),
{
    if names.len() > 0 {
        let init = names.drop_last();
        lemma_stamped_snapshots_have_stamps(init);
        let rest = stamped_snapshots(init);
        if snapshot_stamp(names.last()@) is Some {
            let all = rest.push(names.last());
            assert forall|k: int| 0 <= k < all.len() implies #[trigger] snapshot_stamp(all[k]@) is Some by {
                if k < rest.len() {
                    assert(all[k] == rest[k]);
                }
            }
        }
    }
}

/// Pruning keeps the newest snapshots: of the snapshots sorted for pruning,
/// each one that is deleted carries a time stamp no later than that of any
/// one that is kept, and all of them carry a stamp.
pub proof fn lemma_pruning_keeps_newest(names: Seq<String>, sorted: Seq<String>)
    requires
        is_stable_sort(sorted, stamped_snapshots(names), snapshot_key(), false),
    ensures
        forall|k: int| 0 <= k < sorted.len() ==> #[trigger] snapshot_stamp(sorted[k]@) is Some,
        forall|i: int, j: int|
            0 <= i < all_but_newest(sorted).len() && all_but_newest(sorted).len() <= j < sorted.len()
                ==> #[trigger] stamp_of(sorted[i]@) <= #[trigger] stamp_of(sorted[j]@),
{
    let src = stamped_snapshots(names);
    let perm = choose|perm: Seq<int>| stable_sort_witness(sorted, src, snapshot_key(), false, perm);
    lemma_stamped_snapshots_have_stamps(names);
    assert forall|k: int| 0 <= k < sorted.len() implies #[trigger] snapshot_stamp(sorted[k]@) is Some by {
        assert(sorted[k] == src[perm[k]]);
    }
    let ks = sorted.map_values(snapshot_key());
    assert forall|i: int, j: int|
        0 <= i < all_but_newest(sorted).len() && all_but_newest(sorted).len() <= j < sorted.len()
            implies #[trigger] stamp_of(sorted[i]@) <= #[trigger] stamp_of(sorted[j]@) by {
        assert(!precedes(false, ks[j], ks[i]));
        assert(ks[i] == (snapshot_key())(sorted[i]));
        assert(ks[j] == (snapshot_key())(sorted[j]));
    }
}

/// The names among `names` that `refs` does not mention, in their order.
pub open spec fn unreferenced(names: Seq<String>, refs: Seq<String>) -> Seq<String>
    decreases names.len(),
{
    if names.len() == 0 {
        Seq::empty()
    } else {
        let rest = unreferenced(names.drop_last(), refs);
        if exists|k: int| 0 <= k < refs.len() && #[trigger] refs[k]@ == names.last()@ {
            rest
        } else {
            rest.push(names.last())
        }
    }
}

/// Whether some string of `refs` equals `name`.
fn is_referenced(name: &str, refs: &Vec<String>) -> (r: bool)
    ensures
        r == exists|k: int| 0 <= k < refs@.len() && #[trigger] refs@[k]@ == name@,
{
    let n: usize = refs.len();
    let mut k: usize = 0;
    while k < n
        invariant
            n == refs@.len(),
            k <= n,
            forall|q: int| 0 <= q < k ==> #[trigger] refs@[q]@ != name@,
        decreases n - k,
    {
        if str_eq(refs[k].as_str(), name) {
            return true;
        }
        k = k + 1;
    }
    false
}

/// The archived photo names that no current item refers to.
pub fn orphaned_names(names: &Vec<String>, referenced: &Vec<String>) -> (r: Vec<String>)
    ensures
        r@ == unreferenced(names@, referenced@),
{
    let n: usize = names.len();
    let mut out: Vec<String> = Vec::new();
    let mut i: usize = 0;
    while i < n
        invariant
            n == names@.len(),
            i <= n,
            out@ == unreferenced(names@.take(i as int), referenced@),
        decreases n - i,
    {
        assert(names@.take(i + 1).drop_last() =~= names@.take(i as int));
        if !is_referenced(names[i].as_str(), referenced) {
            out.push(names[i].clone());
        }
        i = i + 1;
    }
    assert(names@.take(n as int) =~= names@);
    out
}

/// How many archived photo names no current item refers to.
pub fn count_orphans(names: &Vec<String>, referenced: &Vec<String>) -> (r: u64)
    ensures
        r == unreferenced(names@, referenced@).len(),
{
    let o = orphaned_names(names, referenced);
    o.len() as u64
}

/// The longest retention a purge accepts, in days.
pub const MAX_PURGE_DAYS: u64 = 36500;

/// How old, in seconds, a deleted photo must be for a purge with a retention
/// of `days` days to erase it; the retention is capped at `MAX_PURGE_DAYS`.
pub fn purge_age_secs(days: u64) -> (r: u64)
    ensures
        r == (if days < MAX_PURGE_DAYS { days } else { MAX_PURGE_DAYS }) * 86400,
{
    let d: u64 = if days < MAX_PURGE_DAYS { days } else { MAX_PURGE_DAYS };
    d * 86400
}

/// The name of the archived thumbnail that belongs to an archived photo:
/// the photo's stem with the `.jpg` extension, or nothing when the photo
/// name has no file name (`Path::with_extension("jpg").file_name()`).
pub open spec fn archived_thumb(name: Seq<char>) -> Seq<char> {
    match file_name(name) {
        Some(n) => stem_of(n) + ".jpg"@,
        None => Seq::empty(),
    }
}

/// The archived thumbnail name for an archived photo name.
pub fn archived_thumb_name(name: &str) -> (r: String)
    ensures
        r@ == archived_thumb(name@),
{
    match path_file_name(name) {
        Some(n) => {
            let stem = name_stem(n.as_str());
            concat(stem.as_str(), ".jpg")
        },
        None => String::new(),
    }
}

/// Purging a photo from the archive removes the very thumbnail that the
/// photo's thumbnail cache entry is named after.
pub proof fn lemma_purged_thumb_matches_cache(name: Seq<char>)
    requires
        file_name(name) is Some,
    ensures
        archived_thumb(name) == thumb_name(name),
{
}

/// The referenced photo names worth looking for: those that are not blank.
pub open spec fn restorable_refs(refs: Seq<String>) -> Seq<String>
    decreases refs.len(),
{
    if refs.len() == 0 {
        Seq::empty()
    } else {
        let rest = restorable_refs(refs.drop_last());
        if is_blank(refs.last()@) {
            rest
        } else {
            rest.push(refs.last())
        }
    }
}

/// The referenced photo names to restore from the archive when missing,
/// skipping blank ones.
pub fn restore_candidates(referenced: &Vec<String>) -> (r: Vec<String>)
    ensures
        r@ == restorable_refs(referenced@),
{
    let n: usize = referenced.len();
    let mut out: Vec<String> = Vec::new();
    let mut i: usize = 0;
    while i < n
        invariant
            n == referenced@.len(),
            i <= n,
            out@ == restorable_refs(referenced@.take(i as int)),
        decreases n - i,
    {
        assert(referenced@.take(i + 1).drop_last() =~= referenced@.take(i as int));
        if !str_is_blank(referenced[i].as_str()) {
            out.push(referenced[i].clone());
        }
        i = i + 1;
    }
    assert(referenced@.take(n as int) =~= referenced@);
    out
}

/// A snapshot written at any time is recognized again, with its time stamp,
/// when the snapshots are listed.
pub proof fn lemma_snapshot_name_round_trip(stamp: u64)
    ensures
        snapshot_stamp(snapshot_name(stamp as nat)) == Some(stamp),
        is_snapshot(snapshot_name(stamp as nat)),
        is_restorable(snapshot_name(stamp as nat)),
{
    reveal_strlit("data-");
    reveal_strlit(".json");
    lemma_decimal_value(stamp as nat);
    let d = decimal(stamp as nat);
    let name = snapshot_name(stamp as nat);
    assert(name.subrange(5, name.len() - 5) =~= d);
    assert("data-"@.is_prefix_of(name)) by {
        assert(name.take(5) =~= "data-"@);
    }
    assert(".json"@.is_suffix_of(name)) by {
        assert(name.skip(name.len() - 5) =~= ".json"@);
    }
    assert(d[0] != '+') by {
        assert(all_digits(d));
        assert(is_digit(d[0]));
    }
    assert(!name.contains('/')) by {
        if name.contains('/') {
            let k = choose|k: int| 0 <= k < name.len() && name[k] == '/';
            if 5 <= k < name.len() - 5 {
                assert(name[k] == d[k - 5]);
                assert(is_digit(d[k - 5]));
            }
        }
    }
    assert(!name.contains('\\')) by {
        if name.contains('\\') {
            let k = choose|k: int| 0 <= k < name.len() && name[k] == '\\';
            if 5 <= k < name.len() - 5 {
                assert(name[k] == d[k - 5]);
                assert(is_digit(d[k - 5]));
            }
        }
    }
}

} // verus!
