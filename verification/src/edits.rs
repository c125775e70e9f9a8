//! Edits the user makes to the catalogue: reordering and removing photos,
//! stepping through photos, deleting a collection with its items, and merging
//! an imported catalogue into the current one.
use vstd::prelude::*;
use crate::model::{AppData, Collection, Item, count_in};
use crate::text::{is_blank, str_eq, str_is_blank};

verus! {

/// Makes photo `idx` the primary photo (first), keeping the order of the
/// others. Out-of-range indices and the primary photo itself change nothing.
pub fn set_main_photo(photos: &mut Vec<String>, idx: usize)
    ensures
        final(photos)@ == if 0 < idx < old(photos)@.len() {
            seq![old(photos)@[idx as int]] + old(photos)@.remove(idx as int)
        } else {
            old(photos)@
        },
{
    if idx < photos.len() && idx != 0 {
        let chosen = photos.remove(idx);
        photos.insert(0, chosen);
        assert(photos@ =~= seq![old(photos)@[idx as int]] + old(photos)@.remove(idx as int));
    }
}

/// Removes photo `idx`, returning its name so that its files can be deleted;
/// an out-of-range index changes nothing.
pub fn remove_photo(photos: &mut Vec<String>, idx: usize) -> (r: Option<String>)
    ensures
        idx < old(photos)@.len() ==> r == Some(old(photos)@[idx as int]) && final(photos)@ == old(
            photos,
        )@.remove(idx as int),
        idx >= old(photos)@.len() ==> r is None && final(photos)@ == old(photos)@,
{
    if idx < photos.len() {
        Some(photos.remove(idx))
    } else {
        None
    }
}

/// The photo index reached by stepping `dir` photos from `index` among
/// `count` photos, wrapping around at both ends; 0 when there are none.
pub open spec fn stepped(index: int, dir: int, count: int) -> int {
    if count <= 0 {
        0
    } else {
        (index + dir) % count
    }
}

/// The photo shown after stepping `dir` photos from `index` among `count`
/// photos, the index and the step being taken as `i32` values.
pub fn lightbox_step(index: usize, dir: i32, count: usize) -> (r: usize)
    requires
        index <= i32::MAX,
        count <= i32::MAX,
        i32::MIN <= index + dir <= i32::MAX,
    ensures
        r == stepped(index as int, dir as int, count as int),
{
    if count == 0 {
        return 0;
    }
    let n: u64 = count as u64;
    if dir >= 0 {
        let t: u64 = index as u64 + dir as u64;
        (t % n) as usize
    } else {
        let back: u64 = (0 - (dir as i64)) as u64;
        if back <= index as u64 {
            let t: u64 = index as u64 - back;
            (t % n) as usize
        } else {
            let k: u64 = back - index as u64;
            let rem: u64 = k % n;
            proof {
                lemma_negative_mod(k as int, n as int);
            }
            if rem == 0 {
                0
            } else {
                (n - rem) as usize
            }
        }
    }
}

/// The Euclidean remainder of `-k` by `n`.
proof fn lemma_negative_mod(k: int, n: int)
    requires
        k > 0,
        n > 0,
    ensures
        (-k) % n == if k % n == 0 {
            0
        } else {
            n - k % n
        },
{
    let q = k / n;
    let r = k % n;
    assert(k == q * n + r && 0 <= r < n) by (nonlinear_arith)
        requires
            k > 0,
            n > 0,
            q == k / n,
            r == k % n,
    ;
    if r == 0 {
        assert(-k == (-q) * n) by (nonlinear_arith)
            requires
                k == q * n + r,
                r == 0,
        ;
        vstd::arithmetic::div_mod::lemma_mod_multiples_basic(-q, n);
    } else {
        assert(-k == (-q - 1) * n + (n - r)) by (nonlinear_arith)
            requires
                k == q * n + r,
        ;
        vstd::arithmetic::div_mod::lemma_mod_multiples_vanish(-q - 1, n - r, n);
        vstd::arithmetic::div_mod::lemma_small_mod((n - r) as nat, n as nat);
    }
}

/// The items that do not belong to collection `cid`, in order.
pub open spec fn items_outside(items: Seq<Item>, cid: Seq<char>) -> Seq<Item>
    decreases items.len(),
{
    if items.len() == 0 {
        Seq::empty()
    } else {
        let rest = items_outside(items.drop_last(), cid);
        if items.last().collection_id@ == cid {
            rest
        } else {
            rest.push(items.last())
        }
    }
}

/// The photos of the items of collection `cid`, item by item.
pub open spec fn photos_in(items: Seq<Item>, cid: Seq<char>) -> Seq<String>
    decreases items.len(),
{
    if items.len() == 0 {
        Seq::empty()
    } else {
        let rest = photos_in(items.drop_last(), cid);
        if items.last().collection_id@ == cid {
            rest + items.last().photos@
        } else {
            rest
        }
    }
}

/// Deletes collection `idx` together with every item that belongs to it.
/// Returns the photos of the deleted items, whose files are to be removed.
/// An out-of-range index changes nothing.
pub fn delete_collection(data: &mut AppData, idx: usize) -> (r: Vec<String>)
    ensures
        final(data).templates == old(data).templates,
        idx < old(data).collections@.len() ==> {
            let cid = old(data).collections@[idx as int].id@;
            &&& final(data).collections@ == old(data).collections@.remove(idx as int)
            &&& final(data).items@ == items_outside(old(data).items@, cid)
            &&& r@ == photos_in(old(data).items@, cid)
        },
        idx >= old(data).collections@.len() ==> *final(data) == *old(data) && r@.len() == 0,
{
    if idx >= data.collections.len() {
        return Vec::new();
    }
    let c = data.collections.remove(idx);
    let ghost cid = c.id@;
    let ghost src = data.items@;
    let n: usize = data.items.len();
    let mut rest: Vec<Item> = Vec::new();
    std::mem::swap(&mut rest, &mut data.items);
    let mut photos: Vec<String> = Vec::new();
    let mut i: usize = 0;
    while i < n
        invariant
            n == src.len(),
            i <= n,
            rest@ == src.skip(i as int),
            data.items@ == items_outside(src.take(i as int), cid),
            photos@ == photos_in(src.take(i as int), cid),
            c.id@ == cid,
            data.collections@ == old(data).collections@.remove(idx as int),
            data.templates == old(data).templates,
        decreases n - i,
    {
        assert(src.take(i + 1).drop_last() =~= src.take(i as int));
        let mut it = rest.remove(0);
        assert(it == src[i as int]);
        if str_eq(it.collection_id.as_str(), c.id.as_str()) {
            let mut ps: Vec<String> = Vec::new();
            std::mem::swap(&mut ps, &mut it.photos);
            photos.append(&mut ps);
        } else {
            data.items.push(it);
        }
        assert(rest@ =~= src.skip(i + 1));
        i = i + 1;
    }
    assert(src.take(n as int) =~= src);
    photos
}

/// After deleting a collection no item refers to it, and the items of every
/// other collection are all still there.
pub proof fn lemma_delete_leaves_no_orphans(items: Seq<Item>, cid: Seq<char>, other: Seq<char>)
    requires
        other != cid,
    ensures
        count_in(items_outside(items, cid), cid) == 0,
        count_in(items_outside(items, cid), other) == count_in(items, other),
    decreases items.len(),
{
    if items.len() > 0 {
        lemma_delete_leaves_no_orphans(items.drop_last(), cid, other);
        let rest = items_outside(items.drop_last(), cid);
        if items.last().collection_id@ != cid {
            assert(rest.push(items.last()).drop_last() =~= rest);
        }
    }
}

/// A collection id already present in `cs`.
pub open spec fn has_collection_id(cs: Seq<Collection>, id: Seq<char>) -> bool {
    exists|k: int| 0 <= k < cs.len() && #[trigger] cs[k].id@ == id
}

/// An item id already present in `items`.
pub open spec fn has_item_id(items: Seq<Item>, id: Seq<char>) -> bool {
    exists|k: int| 0 <= k < items.len() && #[trigger] items[k].id@ == id
}

/// The imported collections whose ids `existing` does not hold, in order.
pub open spec fn fresh_collections(imported: Seq<Collection>, existing: Seq<Collection>) -> Seq<
    Collection,
>
    decreases imported.len(),
{
    if imported.len() == 0 {
        Seq::empty()
    } else {
        let rest = fresh_collections(imported.drop_last(), existing);
        if has_collection_id(existing, imported.last().id@) {
            rest
        } else {
            rest.push(imported.last())
        }
    }
}

/// The imported items whose ids `existing` does not hold, in order.
pub open spec fn fresh_items(imported: Seq<Item>, existing: Seq<Item>) -> Seq<Item>
    decreases imported.len(),
{
    if imported.len() == 0 {
        Seq::empty()
    } else {
        let rest = fresh_items(imported.drop_last(), existing);
        if has_item_id(existing, imported.last().id@) {
            rest
        } else {
            rest.push(imported.last())
        }
    }
}

/// The photo references that are not blank, in order.
pub open spec fn nonblank_photos(ps: Seq<String>) -> Seq<String>
    decreases ps.len(),
{
    if ps.len() == 0 {
        Seq::empty()
    } else {
        let rest = nonblank_photos(ps.drop_last());
        if is_blank(ps.last()@) {
            rest
        } else {
            rest.push(ps.last())
        }
    }
}

/// `b` is `a` with its blank photo references dropped.
pub open spec fn without_blank_photos(a: Item, b: Item) -> bool {
    &&& b.id == a.id
    &&& b.collection_id == a.collection_id
    &&& b.name == a.name
    &&& b.short_desc == a.short_desc
    &&& b.acquired_date == a.acquired_date
    &&& b.custom_fields == a.custom_fields
    &&& b.photos@ == nonblank_photos(a.photos@)
}

/// `new` is `old` with the imported collections and items whose ids it did
/// not yet hold appended (items without their blank photo references).
/// Nothing already present is changed; templates are not imported.
pub open spec fn is_import_merge(old: AppData, imported: AppData, new: AppData) -> bool {
    let fc = fresh_collections(imported.collections@, old.collections@);
    let fi = fresh_items(imported.items@, old.items@);
    &&& new.templates == old.templates
    &&& new.collections@ == old.collections@ + fc
    &&& new.items@.len() == old.items@.len() + fi.len()
    &&& new.items@.take(old.items@.len() as int) == old.items@
    &&& forall|k: int|
        0 <= k < fi.len() ==> without_blank_photos(
            #[trigger] fi[k],
            new.items@[old.items@.len() + k],
        )
}

/// The photo references of `items`, item by item.
pub open spec fn all_photos(items: Seq<Item>) -> Seq<String>
    decreases items.len(),
{
    if items.len() == 0 {
        Seq::empty()
    } else {
        all_photos(items.drop_last()) + items.last().photos@
    }
}

/// Whether some collection of `cs`, among the first `limit`, has the id `id`.
fn collection_id_present(cs: &Vec<Collection>, limit: usize, id: &str) -> (r: bool)
    requires
        limit <= cs@.len(),
    ensures
        r == has_collection_id(cs@.take(limit as int), id@),
{
    let mut k: usize = 0;
    while k < limit
        invariant
            limit <= cs@.len(),
            k <= limit,
            forall|q: int| 0 <= q < k ==> #[trigger] cs@[q].id@ != id@,
        decreases limit - k,
    {
        if str_eq(cs[k].id.as_str(), id) {
            assert(cs@.take(limit as int)[k as int] == cs@[k as int]);
            return true;
        }
        k = k + 1;
    }
    assert forall|q: int| 0 <= q < limit implies #[trigger] cs@.take(limit as int)[q].id@ != id@ by {
        assert(cs@.take(limit as int)[q] == cs@[q]);
    }
    false
}

/// Whether some item of `items`, among the first `limit`, has the id `id`.
fn item_id_present(items: &Vec<Item>, limit: usize, id: &str) -> (r: bool)
    requires
        limit <= items@.len(),
    ensures
        r == has_item_id(items@.take(limit as int), id@),
{
    let mut k: usize = 0;
    while k < limit
        invariant
            limit <= items@.len(),
            k <= limit,
            forall|q: int| 0 <= q < k ==> #[trigger] items@[q].id@ != id@,
        decreases limit - k,
    {
        if str_eq(items[k].id.as_str(), id) {
            assert(items@.take(limit as int)[k as int] == items@[k as int]);
            return true;
        }
        k = k + 1;
    }
    assert forall|q: int| 0 <= q < limit implies #[trigger] items@.take(limit as int)[q].id@ != id@ by {
        assert(items@.take(limit as int)[q] == items@[q]);
    }
    false
}

/// Drops the blank photo references of a list.
fn drop_blank_photos(ps: Vec<String>) -> (r: Vec<String>)
    ensures
        r@ == nonblank_photos(ps@),
{
    let ghost src = ps@;
    let n: usize = ps.len();
    let mut rest = ps;
    let mut out: Vec<String> = Vec::new();
    let mut i: usize = 0;
    while i < n
        invariant
            n == src.len(),
            i <= n,
            rest@ == src.skip(i as int),
            out@ == nonblank_photos(src.take(i as int)),
        decreases n - i,
    {
        assert(src.take(i + 1).drop_last() =~= src.take(i as int));
        let p = rest.remove(0);
        if !str_is_blank(p.as_str()) {
            out.push(p);
        }
        assert(rest@ =~= src.skip(i + 1));
        i = i + 1;
    }
    assert(src.take(n as int) =~= src);
    out
}

/// Merges an imported catalogue into `data`: collections and items whose
/// ids are already present are skipped, so that importing an old backup never
/// overwrites newer edits; new items lose their blank photo references.
/// Returns, item by item, the photo references of the items taken in (blank
/// ones included), whose thumbnails may need regenerating.
pub fn merge_imported(data: &mut AppData, imported: AppData) -> (r: Vec<String>)
    ensures
        is_import_merge(*old(data), imported, *final(data)),
        r@ == all_photos(fresh_items(imported.items@, old(data).items@)),
{
    let ghost old_data = *data;
    let ghost ic = imported.collections@;
    let ghost ii = imported.items@;
    let AppData { collections: in_cols, items: in_items, templates: _ } = imported;
    // collections
    let nc: usize = in_cols.len();
    let existing_cols: usize = data.collections.len();
    let mut rest_cols = in_cols;
    let mut i: usize = 0;
    while i < nc
        invariant
            nc == ic.len(),
            i <= nc,
            existing_cols == old_data.collections@.len(),
            rest_cols@ == ic.skip(i as int),
            data.collections@ == old_data.collections@ + fresh_collections(
                ic.take(i as int),
                old_data.collections@,
            ),
            data.items == old_data.items,
            data.templates == old_data.templates,
        decreases nc - i,
    {
        assert(ic.take(i + 1).drop_last() =~= ic.take(i as int));
        let c = rest_cols.remove(0);
        assert(c == ic[i as int]);
        let present = collection_id_present(&data.collections, existing_cols, c.id.as_str());
        assert(data.collections@.take(existing_cols as int) =~= old_data.collections@);
        if !present {
            data.collections.push(c);
        }
        assert(rest_cols@ =~= ic.skip(i + 1));
        i = i + 1;
    }
    assert(ic.take(nc as int) =~= ic);
    assert(data.collections@ == old_data.collections@ + fresh_collections(ic, old_data.collections@));
    // items
    let ni: usize = in_items.len();
    let existing_items: usize = data.items.len();
    let mut rest_items = in_items;
    let mut taken: Vec<String> = Vec::new();
    let mut j: usize = 0;
    while j < ni
        invariant
            ni == ii.len(),
            j <= ni,
            existing_items == old_data.items@.len(),
            rest_items@ == ii.skip(j as int),
            data.collections@ == old_data.collections@ + fresh_collections(
                ic,
                old_data.collections@,
            ),
            data.templates == old_data.templates,
            data.items@.len() == existing_items + fresh_items(
                ii.take(j as int),
                old_data.items@,
            ).len(),
            data.items@.take(existing_items as int) == old_data.items@,
            taken@ == all_photos(fresh_items(ii.take(j as int), old_data.items@)),
            forall|k: int|
                0 <= k < fresh_items(ii.take(j as int), old_data.items@).len() ==> without_blank_photos(
                    #[trigger] fresh_items(ii.take(j as int), old_data.items@)[k],
                    data.items@[existing_items + k],
                ),
        decreases ni - j,
    {
        assert(ii.take(j + 1).drop_last() =~= ii.take(j as int));
        let mut it = rest_items.remove(0);
        assert(it == ii[j as int]);
        let present = item_id_present(&data.items, existing_items, it.id.as_str());
        assert(data.items@.take(existing_items as int) == old_data.items@);
        if !present {
            let mut ps: Vec<String> = Vec::new();
            std::mem::swap(&mut ps, &mut it.photos);
            let mut copy: Vec<String> = Vec::new();
            let pn: usize = ps.len();
            let mut q: usize = 0;
            while q < pn
                invariant
                    pn == ps@.len(),
                    q <= pn,
                    copy@ == ps@.take(q as int),
                decreases pn - q,
            {
                copy.push(ps[q].clone());
                assert(copy@ =~= ps@.take(q + 1));
                q = q + 1;
            }
            assert(copy@ =~= ps@);
            taken.append(&mut copy);
            it.photos = drop_blank_photos(ps);
            let ghost before = data.items@;
            data.items.push(it);
            proof {
                let fi0 = fresh_items(ii.take(j as int), old_data.items@);
                let fi1 = fresh_items(ii.take(j + 1), old_data.items@);
                assert(fi1 == fi0.push(ii[j as int]));
                assert(fi1.drop_last() =~= fi0);
                assert(data.items@.take(existing_items as int) =~= before.take(existing_items as int));
                assert forall|k: int| 0 <= k < fi1.len() implies without_blank_photos(
                    #[trigger] fi1[k],
                    data.items@[existing_items + k],
                ) by {
                    if k < fi0.len() {
                        assert(fi1[k] == fi0[k]);
                        assert(data.items@[existing_items + k] == before[existing_items + k]);
                    }
                }
            }
        }
        assert(rest_items@ =~= ii.skip(j + 1));
        j = j + 1;
    }
    assert(ii.take(ni as int) =~= ii);
    taken
}

/// Every imported collection id is present once the fresh ones are appended.
proof fn lemma_fresh_collections_cover(imported: Seq<Collection>, existing: Seq<Collection>)
    ensures
        forall|k: int|
            0 <= k < imported.len() ==> has_collection_id(
                existing + fresh_collections(imported, existing),
                #[trigger] imported[k].id@,
            ),
    decreases imported.len(),
{
    if imported.len() > 0 {
        let init = imported.drop_last();
        lemma_fresh_collections_cover(init, existing);
        let f0 = fresh_collections(init, existing);
        let f1 = fresh_collections(imported, existing);
        let all = existing + f1;
        assert forall|k: int| 0 <= k < imported.len() implies has_collection_id(
            all,
            #[trigger] imported[k].id@,
        ) by {
            if k < imported.len() - 1 {
                assert(imported[k] == init[k]);
                let w = choose|w: int|
                    0 <= w < (existing + f0).len() && #[trigger] (existing + f0)[w].id@
                        == init[k].id@;
                if w < existing.len() {
                    assert(all[w] == existing[w]);
                } else {
                    assert((existing + f0)[w] == f0[w - existing.len()]);
                    assert(f1[w - existing.len()] == f0[w - existing.len()]);
                    assert(all[w] == f1[w - existing.len()]);
                }
            } else if has_collection_id(existing, imported.last().id@) {
                let w = choose|w: int|
                    0 <= w < existing.len() && #[trigger] existing[w].id@ == imported.last().id@;
                assert(all[w] == existing[w]);
            } else {
                assert(all[(existing.len() + f0.len()) as int] == imported.last());
            }
        }
    }
}

/// Nothing is fresh when every imported id is already present.
proof fn lemma_no_fresh_collections(imported: Seq<Collection>, existing: Seq<Collection>)
    requires
        forall|k: int|
            0 <= k < imported.len() ==> has_collection_id(existing, #[trigger] imported[k].id@),
    ensures
        fresh_collections(imported, existing) == Seq::<Collection>::empty(),
    decreases imported.len(),
{
    if imported.len() > 0 {
        let init = imported.drop_last();
        assert forall|k: int| 0 <= k < init.len() implies has_collection_id(
            existing,
            #[trigger] init[k].id@,
        ) by {
            assert(init[k] == imported[k]);
        }
        lemma_no_fresh_collections(init, existing);
        assert(has_collection_id(existing, imported[imported.len() - 1].id@));
    }
}

/// Every imported item id is present after a merge that took in `fresh`.
proof fn lemma_fresh_items_cover(imported: Seq<Item>, existing: Seq<Item>)
    ensures
        forall|k: int|
            0 <= k < imported.len() ==> #[trigger] has_item_id(existing, imported[k].id@) || exists|
                q: int,
            |
                0 <= q < fresh_items(imported, existing).len() && #[trigger] fresh_items(
                    imported,
                    existing,
                )[q].id@ == imported[k].id@,
    decreases imported.len(),
{
    if imported.len() > 0 {
        let init = imported.drop_last();
        lemma_fresh_items_cover(init, existing);
        let f0 = fresh_items(init, existing);
        let f1 = fresh_items(imported, existing);
        assert forall|k: int| 0 <= k < imported.len() implies #[trigger] has_item_id(
            existing,
            imported[k].id@,
        ) || exists|q: int| 0 <= q < f1.len() && #[trigger] f1[q].id@ == imported[k].id@ by {
            if k < imported.len() - 1 {
                assert(imported[k] == init[k]);
                if !has_item_id(existing, init[k].id@) {
                    let q = choose|q: int| 0 <= q < f0.len() && #[trigger] f0[q].id@ == init[k].id@;
                    assert(f1[q] == f0[q]);
                }
            } else if !has_item_id(existing, imported.last().id@) {
                assert(f1[f0.len() as int] == imported.last());
            }
        }
    }
}

/// Nothing is fresh when every imported item id is already present.
proof fn lemma_no_fresh_items(imported: Seq<Item>, existing: Seq<Item>)
    requires
        forall|k: int| 0 <= k < imported.len() ==> has_item_id(existing, #[trigger] imported[k].id@),
    ensures
        fresh_items(imported, existing) == Seq::<Item>::empty(),
    decreases imported.len(),
{
    if imported.len() > 0 {
        let init = imported.drop_last();
        assert forall|k: int| 0 <= k < init.len() implies has_item_id(
            existing,
            #[trigger] init[k].id@,
        ) by {
            assert(init[k] == imported[k]);
        }
        lemma_no_fresh_items(init, existing);
        assert(has_item_id(existing, imported[imported.len() - 1].id@));
    }
}

/// `b` holds the photos of `a` that are not blank, and no others.
pub open spec fn keeps_nonblank(a: Seq<String>, b: Seq<String>) -> bool {
    &&& forall|q: int|
        0 <= q < b.len() ==> !is_blank(#[trigger] b[q]@) && exists|r: int|
            0 <= r < a.len() && #[trigger] a[r] == b[q]
    &&& forall|r: int|
        0 <= r < a.len() && !is_blank(#[trigger] a[r]@) ==> exists|q: int|
            0 <= q < b.len() && #[trigger] b[q] == a[r]
}

/// `b` is the imported item `a` as taken in: the same id, collection, name,
/// description, date and custom fields, and its photos without blank ones.
pub open spec fn taken_whole(a: Item, b: Item) -> bool {
    &&& b.id == a.id
    &&& b.collection_id == a.collection_id
    &&& b.name == a.name
    &&& b.short_desc == a.short_desc
    &&& b.acquired_date == a.acquired_date
    &&& b.custom_fields == a.custom_fields
    &&& keeps_nonblank(a.photos@, b.photos@)
}

/// Where a photo kept by `nonblank_photos` comes from.
proof fn nonblank_source(ps: Seq<String>, q: int) -> (r: int)
    requires
        0 <= q < nonblank_photos(ps).len(),
    ensures
        0 <= r < ps.len(),
        ps[r] == nonblank_photos(ps)[q],
        !is_blank(ps[r]@),
    decreases ps.len(),
{
    let init = ps.drop_last();
    if q < nonblank_photos(init).len() {
        let r = nonblank_source(init, q);
        assert(ps[r] == init[r]);
        r
    } else {
        (ps.len() - 1) as int
    }
}

/// Where `nonblank_photos` keeps a photo that is not blank.
proof fn nonblank_target(ps: Seq<String>, r: int) -> (q: int)
    requires
        0 <= r < ps.len(),
        !is_blank(ps[r]@),
    ensures
        0 <= q < nonblank_photos(ps).len(),
        nonblank_photos(ps)[q] == ps[r],
    decreases ps.len(),
{
    let init = ps.drop_last();
    if r < init.len() {
        assert(init[r] == ps[r]);
        let q = nonblank_target(init, r);
        q
    } else {
        nonblank_photos(init).len() as int
    }
}

proof fn lemma_nonblank_photos_members(ps: Seq<String>)
    ensures
        keeps_nonblank(ps, nonblank_photos(ps)),
{
    let b = nonblank_photos(ps);
    assert forall|q: int| 0 <= q < b.len() implies !is_blank(#[trigger] b[q]@) && exists|r: int|
        0 <= r < ps.len() && #[trigger] ps[r] == b[q] by {
        let r = nonblank_source(ps, q);
    }
    assert forall|r: int| 0 <= r < ps.len() && !is_blank(#[trigger] ps[r]@) implies exists|q: int|
        0 <= q < b.len() && #[trigger] b[q] == ps[r] by {
        let q = nonblank_target(ps, r);
    }
}

/// Which imported item the `k`-th fresh one is.
proof fn fresh_source(imported: Seq<Item>, existing: Seq<Item>, k: int) -> (j: int)
    requires
        0 <= k < fresh_items(imported, existing).len(),
    ensures
        0 <= j < imported.len(),
        !has_item_id(existing, imported[j].id@),
        fresh_items(imported, existing)[k] == imported[j],
    decreases imported.len(),
{
    let init = imported.drop_last();
    if k < fresh_items(init, existing).len() {
        let j = fresh_source(init, existing, k);
        assert(imported[j] == init[j]);
        j
    } else {
        (imported.len() - 1) as int
    }
}

/// Where a new imported item stands among the fresh ones.
proof fn fresh_target(imported: Seq<Item>, existing: Seq<Item>, j: int) -> (k: int)
    requires
        0 <= j < imported.len(),
        !has_item_id(existing, imported[j].id@),
    ensures
        0 <= k < fresh_items(imported, existing).len(),
        fresh_items(imported, existing)[k] == imported[j],
    decreases imported.len(),
{
    let init = imported.drop_last();
    if j < init.len() {
        assert(init[j] == imported[j]);
        fresh_target(init, existing, j)
    } else {
        fresh_items(init, existing).len() as int
    }
}

/// An import takes each new item in whole: every item it adds is an
/// imported item whose id was not yet present, with the same id, collection,
/// name, description, date and custom fields and its photos without blank
/// ones; and every imported item whose id was not yet present is added so.
/// The items already present stay as they were.
pub proof fn lemma_import_takes_items_whole(d0: AppData, imported: AppData, d1: AppData)
    requires
        is_import_merge(d0, imported, d1),
    ensures
        d1.items@.take(d0.items@.len() as int) == d0.items@,
        forall|k: int|
            d0.items@.len() <= k < d1.items@.len() ==> exists|j: int|
                0 <= j < imported.items@.len() && !has_item_id(d0.items@, imported.items@[j].id@)
                    && taken_whole(imported.items@[j], #[trigger] d1.items@[k]),
        forall|j: int|
            0 <= j < imported.items@.len() && !has_item_id(d0.items@, #[trigger] imported.items@[j].id@)
                ==> exists|k: int|
                d0.items@.len() <= k < d1.items@.len() && taken_whole(imported.items@[j], #[trigger] d1.items@[k]),
{
    let ii = imported.items@;
    let n0 = d0.items@.len();
    let fi = fresh_items(ii, d0.items@);
    assert forall|k: int| n0 <= k < d1.items@.len() implies exists|j: int|
        0 <= j < ii.len() && !has_item_id(d0.items@, ii[j].id@) && taken_whole(
            ii[j],
            #[trigger] d1.items@[k],
        ) by {
        let q = k - n0;
        assert(without_blank_photos(fi[q], d1.items@[n0 + q]));
        lemma_nonblank_photos_members(fi[q].photos@);
        let j = fresh_source(ii, d0.items@, q);
        assert(taken_whole(ii[j], d1.items@[k]));
    }
    assert forall|j: int|
        0 <= j < ii.len() && !has_item_id(d0.items@, #[trigger] ii[j].id@) implies exists|k: int|
        n0 <= k < d1.items@.len() && taken_whole(ii[j], #[trigger] d1.items@[k]) by {
        let q = fresh_target(ii, d0.items@, j);
        assert(without_blank_photos(fi[q], d1.items@[n0 + q]));
        lemma_nonblank_photos_members(fi[q].photos@);
        assert(taken_whole(ii[j], d1.items@[n0 + q]));
    }
}

/// Which imported collection the `k`-th fresh one is.
proof fn fresh_collection_source(imported: Seq<Collection>, existing: Seq<Collection>, k: int) -> (j: int)
    requires
        0 <= k < fresh_collections(imported, existing).len(),
    ensures
        0 <= j < imported.len(),
        !has_collection_id(existing, imported[j].id@),
        fresh_collections(imported, existing)[k] == imported[j],
    decreases imported.len(),
{
    let init = imported.drop_last();
    if k < fresh_collections(init, existing).len() {
        let j = fresh_collection_source(init, existing, k);
        assert(imported[j] == init[j]);
        j
    } else {
        (imported.len() - 1) as int
    }
}

/// Where a new imported collection stands among the fresh ones.
proof fn fresh_collection_target(imported: Seq<Collection>, existing: Seq<Collection>, j: int) -> (k: int)
    requires
        0 <= j < imported.len(),
        !has_collection_id(existing, imported[j].id@),
    ensures
        0 <= k < fresh_collections(imported, existing).len(),
        fresh_collections(imported, existing)[k] == imported[j],
    decreases imported.len(),
{
    let init = imported.drop_last();
    if j < init.len() {
        assert(init[j] == imported[j]);
        fresh_collection_target(init, existing, j)
    } else {
        fresh_collections(init, existing).len() as int
    }
}

/// An import never overwrites a collection: the collections already present
/// stay first and as they were; every collection it adds is an imported one
/// whose id was not yet present, unchanged; and every imported collection
/// whose id was not yet present is added. Templates are not imported.
pub proof fn lemma_import_takes_collections_whole(d0: AppData, imported: AppData, d1: AppData)
    requires
        is_import_merge(d0, imported, d1),
    ensures
        d1.templates == d0.templates,
        d1.collections@.len() >= d0.collections@.len(),
        d1.collections@.take(d0.collections@.len() as int) == d0.collections@,
        forall|k: int|
            d0.collections@.len() <= k < d1.collections@.len() ==> exists|j: int|
                0 <= j < imported.collections@.len() && !has_collection_id(
                    d0.collections@,
                    imported.collections@[j].id@,
                ) && #[trigger] d1.collections@[k] == imported.collections@[j],
        forall|j: int|
            0 <= j < imported.collections@.len() && !has_collection_id(
                d0.collections@,
                #[trigger] imported.collections@[j].id@,
            ) ==> exists|k: int|
                d0.collections@.len() <= k < d1.collections@.len() && d1.collections@[k]
                    == imported.collections@[j],
{
    let ic = imported.collections@;
    let n0 = d0.collections@.len();
    let fc = fresh_collections(ic, d0.collections@);
    assert(d1.collections@.take(n0 as int) =~= d0.collections@);
    assert forall|k: int| n0 <= k < d1.collections@.len() implies exists|j: int|
        0 <= j < ic.len() && !has_collection_id(d0.collections@, ic[j].id@)
            && #[trigger] d1.collections@[k] == ic[j] by {
        let j = fresh_collection_source(ic, d0.collections@, k - n0);
        assert(d1.collections@[k] == fc[k - n0]);
    }
    assert forall|j: int|
        0 <= j < ic.len() && !has_collection_id(d0.collections@, #[trigger] ic[j].id@) implies exists|k: int|
        n0 <= k < d1.collections@.len() && d1.collections@[k] == ic[j] by {
        let q = fresh_collection_target(ic, d0.collections@, j);
        assert(d1.collections@[n0 + q] == fc[q]);
    }
}

/// Importing the same catalogue a second time changes nothing: every
/// collection and item it holds is already present after the first import.
pub proof fn lemma_import_twice_is_import_once(
    d0: AppData,
    imported: AppData,
    d1: AppData,
    d2: AppData,
)
    requires
        is_import_merge(d0, imported, d1),
        is_import_merge(d1, imported, d2),
    ensures
        d2.collections@ == d1.collections@,
        d2.items@ == d1.items@,
        d2.templates == d1.templates,
{
    let ic = imported.collections@;
    let ii = imported.items@;
    lemma_fresh_collections_cover(ic, d0.collections@);
    lemma_no_fresh_collections(ic, d1.collections@);
    assert(d2.collections@ =~= d1.collections@);
    lemma_fresh_items_cover(ii, d0.items@);
    let f = fresh_items(ii, d0.items@);
    let n0 = d0.items@.len();
    assert forall|k: int| 0 <= k < ii.len() implies has_item_id(d1.items@, #[trigger] ii[k].id@) by {
        if has_item_id(d0.items@, ii[k].id@) {
            let w = choose|w: int| 0 <= w < n0 && #[trigger] d0.items@[w].id@ == ii[k].id@;
            assert(d1.items@.take(n0 as int)[w] == d1.items@[w]);
            assert(d1.items@[w].id@ == ii[k].id@);
        } else {
            let q = choose|q: int| 0 <= q < f.len() && #[trigger] f[q].id@ == ii[k].id@;
            assert(without_blank_photos(f[q], d1.items@[n0 + q]));
            assert(d1.items@[n0 + q].id@ == ii[k].id@);
        }
    }
    lemma_no_fresh_items(ii, d1.items@);
    assert(d2.items@ =~= d2.items@.take(d1.items@.len() as int));
}

/// Stepping forward and then back again returns to the photo one started
/// from, and stepping always lands on a photo.
pub proof fn lemma_lightbox_step_back_and_forth(index: int, count: int)
    requires
        0 <= index < count,
    ensures
        0 <= stepped(index, 1, count) < count,
        stepped(stepped(index, 1, count), -1, count) == index,
        stepped(stepped(index, -1, count), 1, count) == index,
{
    let f = stepped(index, 1, count);
    let b = stepped(index, -1, count);
    if index + 1 < count {
        vstd::arithmetic::div_mod::lemma_small_mod((index + 1) as nat, count as nat);
    } else {
        vstd::arithmetic::div_mod::lemma_mod_self_0(count);
    }
    vstd::arithmetic::div_mod::lemma_mod_bound(index - 1, count);
    if index >= 1 {
        vstd::arithmetic::div_mod::lemma_small_mod((index - 1) as nat, count as nat);
    } else {
        assert((index - 1) % count == count - 1) by {
            vstd::arithmetic::div_mod::lemma_mod_multiples_vanish(-1, count - 1, count);
            vstd::arithmetic::div_mod::lemma_small_mod((count - 1) as nat, count as nat);
        }
    }
    vstd::arithmetic::div_mod::lemma_small_mod(index as nat, count as nat);
    if f > 0 {
        vstd::arithmetic::div_mod::lemma_small_mod((f - 1) as nat, count as nat);
    } else {
        assert(f == 0);
        assert(index == count - 1);
        assert((f - 1) % count == count - 1) by {
            vstd::arithmetic::div_mod::lemma_mod_multiples_vanish(-1, count - 1, count);
            vstd::arithmetic::div_mod::lemma_small_mod((count - 1) as nat, count as nat);
        }
    }
    if b + 1 < count {
        vstd::arithmetic::div_mod::lemma_small_mod((b + 1) as nat, count as nat);
    } else {
        vstd::arithmetic::div_mod::lemma_mod_self_0(count);
    }
}

} // verus!
