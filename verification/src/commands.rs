//! Commands of the catalogue window: adding and duplicating collections,
//! deleting the checked rows, renaming, saving and renaming templates,
//! picking icons, adding photos, and writing the detail editors back.
use vstd::prelude::*;
use crate::model::{AppData, Collection, CustomField, Item, Template, next_order, orders_below_max};
use crate::edits::photos_in;
use crate::items::{find_item, find_template, first_item, first_template};
use crate::photos::{is_v4_uuid_text, new_id};
use crate::selection::{among, first_position, is_among, position_of};
use crate::text::{
    decimal, is_blank, is_newline_trimmed, is_space_trimmed, lemma_blank_iff_trims_empty,
    lemma_without_trailing_newlines, push_decimal, str_eq, trim, trim_trailing_newlines, trimmed,
    without_trailing_newlines,
};

verus! {

/// The icon character given to the `k`-th new collection, cycling through
/// ten pictures.
pub open spec fn collection_icon(k: nat) -> char {
    let j = k % 10;
    if j == 0 { '\u{1F4C1}' } else if j == 1 { '\u{1F4C2}' } else if j == 2 { '\u{1F3A7}' }
    else if j == 3 { '\u{2712}' } else if j == 4 { '\u{1F4F7}' } else if j == 5 { '\u{1F3AE}' }
    else if j == 6 { '\u{1F4DA}' } else if j == 7 { '\u{231A}' } else if j == 8 { '\u{1F48D}' }
    else { '\u{1F3B8}' }
}

fn icon_for(k: usize) -> (c: char)
    ensures
        c == collection_icon(k as nat),
{
    let j: usize = k % 10;
    if j == 0 { '\u{1F4C1}' } else if j == 1 { '\u{1F4C2}' } else if j == 2 { '\u{1F3A7}' }
    else if j == 3 { '\u{2712}' } else if j == 4 { '\u{1F4F7}' } else if j == 5 { '\u{1F3AE}' }
    else if j == 6 { '\u{1F4DA}' } else if j == 7 { '\u{231A}' } else if j == 8 { '\u{1F48D}' }
    else { '\u{1F3B8}' }
}

/// `b` is `a` with a new collection at the end, named `New Collection <n + 1>`
/// where `n` is the number of collections before, with the `n`-th icon, a
/// fresh id and the next insertion order, later than every other.
pub open spec fn is_new_collection(a: AppData, b: AppData) -> bool {
    let c = b.collections@.last();
    let n = a.collections@.len();
    &&& b.items == a.items
    &&& b.templates == a.templates
    &&& b.collections@.len() == n + 1
    &&& b.collections@.drop_last() == a.collections@
    &&& is_v4_uuid_text(c.id@)
    &&& c.name@ == "New Collection "@ + decimal(n + 1)
    &&& c.icon@ == seq![collection_icon(n)]
    &&& c.order == next_order(a.collections@)
    &&& forall|k: int| 0 <= k < n ==> #[trigger] a.collections@[k].order < c.order
}

/// Adds a collection at the end (see `is_new_collection`).
pub fn new_collection(data: &mut AppData)
    requires
        orders_below_max(old(data).collections@),
        old(data).collections@.len() < u64::MAX,
    ensures
        is_new_collection(*old(data), *final(data)),
{
    let n: usize = data.collections.len();
    let order = data.next_coll_order();
    let mut name = "New Collection ".to_owned();
    push_decimal(&mut name, n as u64 + 1);
    let mut icon = String::new();
    icon.push(icon_for(n));
    data.collections.push(Collection { id: new_id(), name, icon, order });
    assert(data.collections@.drop_last() =~= old(data).collections@);
}

/// The items of collection `cid`, in order.
pub open spec fn items_of(items: Seq<Item>, cid: Seq<char>) -> Seq<Item>
    decreases items.len(),
{
    if items.len() == 0 {
        Seq::empty()
    } else {
        let rest = items_of(items.drop_last(), cid);
        if items.last().collection_id@ == cid {
            rest.push(items.last())
        } else {
            rest
        }
    }
}

/// A prefix never holds more items of a collection than the whole list.
proof fn lemma_items_of_prefix(items: Seq<Item>, cid: Seq<char>, i: int)
    requires
        0 <= i <= items.len(),
    ensures
        items_of(items.take(i), cid).len() <= items_of(items, cid).len(),
    decreases items.len() - i,
{
    if i < items.len() {
        assert(items.take(i + 1).drop_last() =~= items.take(i));
        lemma_items_of_prefix(items, cid, i + 1);
    } else {
        assert(items.take(i) =~= items);
    }
}

/// The custom fields `b` copy those of `a`: same labels and values, in the
/// same order, each with a fresh id.
pub open spec fn fields_renewed(a: Seq<CustomField>, b: Seq<CustomField>) -> bool {
    &&& b.len() == a.len()
    &&& forall|q: int|
        0 <= q < a.len() ==> {
            &&& #[trigger] b[q].label == a[q].label
            &&& b[q].value == a[q].value
            &&& is_v4_uuid_text(b[q].id@)
        }
}

/// `b` is the copy of item `a` made for the collection `cid`: a fresh id,
/// the photos `photos`, fresh custom field ids, everything else the same.
pub open spec fn is_member_copy(a: Item, b: Item, cid: Seq<char>, photos: Seq<String>) -> bool {
    &&& is_v4_uuid_text(b.id@)
    &&& b.collection_id@ == cid
    &&& b.name == a.name
    &&& b.short_desc == a.short_desc
    &&& b.acquired_date == a.acquired_date
    &&& b.photos@ == photos
    &&& fields_renewed(a.custom_fields@, b.custom_fields@)
}

/// Copies the custom fields of an item, giving each a fresh id.
fn renew_fields(fs: &Vec<CustomField>) -> (r: Vec<CustomField>)
    ensures
        fields_renewed(fs@, r@),
{
    let n: usize = fs.len();
    let mut out: Vec<CustomField> = Vec::new();
    let mut q: usize = 0;
    while q < n
        invariant
            n == fs@.len(),
            q <= n,
            out@.len() == q,
            forall|t: int|
                0 <= t < q ==> {
                    &&& #[trigger] out@[t].label == fs@[t].label
                    &&& out@[t].value == fs@[t].value
                    &&& is_v4_uuid_text(out@[t].id@)
                },
        decreases n - q,
    {
        out.push(CustomField { id: new_id(), label: fs[q].label.clone(), value: fs[q].value.clone() });
        q = q + 1;
    }
    out
}

/// Duplicates collection `idx`: a collection named `<name> (copy)` with the
/// same icon, a fresh id and the next insertion order goes right after it,
/// and a copy of each of its items, in order, goes at the end of the items.
/// `copied[j]` holds the photos of the `j`-th item's copy (copies of the
/// original photo files). Returns whether there is a collection `idx`; when
/// there is not, nothing changes.
pub fn duplicate_collection(data: &mut AppData, idx: usize, copied: Vec<Vec<String>>) -> (r: bool)
    requires
        orders_below_max(old(data).collections@),
        idx < old(data).collections@.len() ==> copied@.len() == items_of(
            old(data).items@,
            old(data).collections@[idx as int].id@,
        ).len(),
    ensures
        r == (idx < old(data).collections@.len()),
        !r ==> *final(data) == *old(data),
        r ==> {
            let src = old(data).collections@[idx as int];
            let c = final(data).collections@[idx + 1];
            let members = items_of(old(data).items@, src.id@);
            let n = old(data).items@.len();
            &&& final(data).templates == old(data).templates
            &&& final(data).collections@ == old(data).collections@.insert(idx + 1, c)
            &&& is_v4_uuid_text(c.id@)
            &&& c.name@ == src.name@ + " (copy)"@
            &&& c.icon == src.icon
            &&& c.order == next_order(old(data).collections@)
            &&& forall|k: int|
                0 <= k < old(data).collections@.len() ==> #[trigger] old(
                    data,
                ).collections@[k].order < c.order
            &&& final(data).items@.len() == n + members.len()
            &&& final(data).items@.take(n as int) == old(data).items@
            &&& forall|j: int|
                0 <= j < members.len() ==> is_member_copy(
                    #[trigger] members[j],
                    final(data).items@[n + j],
                    c.id@,
                    copied@[j]@,
                )
        },
{
    if idx >= data.collections.len() {
        return false;
    }
    let ghost old_data = *data;
    let order = data.next_coll_order();
    let new_cid = new_id();
    let src_id = data.collections[idx].id.clone();
    let mut name = data.collections[idx].name.clone();
    name.append(" (copy)");
    let icon = data.collections[idx].icon.clone();
    let c = Collection { id: new_cid.clone(), name, icon, order };
    data.collections.insert(idx + 1, c);
    let ghost members = items_of(old_data.items@, src_id@);
    let ghost src_items = old_data.items@;
    let n: usize = data.items.len();
    let ncopies: usize = copied.len();
    let mut rest = copied;
    let mut i: usize = 0;
    let mut j: usize = 0;
    while i < n
        invariant
            n == src_items.len(),
            i <= n,
            src_items == old_data.items@,
            members == items_of(src_items, src_id@),
            copied@.len() == members.len(),
            ncopies == copied@.len(),
            j == items_of(src_items.take(i as int), src_id@).len(),
            j <= copied@.len(),
            rest@ == copied@.skip(j as int),
            data.items@.len() == n + j,
            data.items@.take(n as int) == src_items,
            forall|q: int|
                0 <= q < j ==> is_member_copy(
                    #[trigger] items_of(src_items.take(i as int), src_id@)[q],
                    data.items@[n + q],
                    new_cid@,
                    copied@[q]@,
                ),
            idx < old_data.collections@.len(),
            data.collections@ == old_data.collections@.insert(idx + 1, c),
            data.templates == old_data.templates,
        decreases n - i,
    {
        let ghost pre = items_of(src_items.take(i as int), src_id@);
        assert(src_items.take(i + 1).drop_last() =~= src_items.take(i as int));
        assert(src_items.take(i + 1).last() == src_items[i as int]);
        if str_eq(data.items[i].collection_id.as_str(), src_id.as_str()) {
            proof {
                lemma_items_of_prefix(src_items, src_id@, i + 1);
                assert(items_of(src_items.take(i + 1), src_id@) == pre.push(src_items[i as int]));
            }
            assert(j < copied@.len());
            let photos = rest.remove(0);
            assert(photos == copied@[j as int]);
            let it = &data.items[i];
            let copy = Item {
                id: new_id(),
                collection_id: new_cid.clone(),
                name: it.name.clone(),
                short_desc: it.short_desc.clone(),
                photos,
                acquired_date: it.acquired_date.clone(),
                custom_fields: renew_fields(&it.custom_fields),
            };
            let ghost before = data.items@;
            data.items.push(copy);
            proof {
                let post = items_of(src_items.take(i + 1), src_id@);
                assert(post == pre.push(src_items[i as int]));
                assert(data.items@.take(n as int) =~= before.take(n as int));
                assert forall|q: int| 0 <= q < j + 1 implies is_member_copy(
                    #[trigger] post[q],
                    data.items@[n + q],
                    new_cid@,
                    copied@[q]@,
                ) by {
                    if q < j {
                        assert(post[q] == pre[q]);
                        assert(data.items@[n + q] == before[n + q]);
                    }
                }
            }
            assert(rest@ =~= copied@.skip(j + 1));
            j = j + 1;
        }
        i = i + 1;
    }
    assert(src_items.take(n as int) =~= src_items);
    true
}

/// The collections whose id is not among `ids`, in order.
pub open spec fn collections_not_among(cs: Seq<Collection>, ids: Seq<String>) -> Seq<Collection>
    decreases cs.len(),
{
    if cs.len() == 0 {
        Seq::empty()
    } else {
        let rest = collections_not_among(cs.drop_last(), ids);
        if among(ids, cs.last().id@) {
            rest
        } else {
            rest.push(cs.last())
        }
    }
}

/// The items whose collection is not among `ids`, in order.
pub open spec fn items_outside_all(items: Seq<Item>, ids: Seq<String>) -> Seq<Item>
    decreases items.len(),
{
    if items.len() == 0 {
        Seq::empty()
    } else {
        let rest = items_outside_all(items.drop_last(), ids);
        if among(ids, items.last().collection_id@) {
            rest
        } else {
            rest.push(items.last())
        }
    }
}

/// The photos of the items of each collection of `ids`, collection by
/// collection and, within one, item by item.
pub open spec fn photos_of_collections(items: Seq<Item>, ids: Seq<String>) -> Seq<String>
    decreases ids.len(),
{
    if ids.len() == 0 {
        Seq::empty()
    } else {
        photos_of_collections(items, ids.drop_last()) + photos_in(items, ids.last()@)
    }
}

/// No item left by `items_outside_all` belongs to one of the collections.
proof fn lemma_items_outside_all(items: Seq<Item>, ids: Seq<String>)
    ensures
        forall|k: int|
            0 <= k < items_outside_all(items, ids).len() ==> !among(
                ids,
                #[trigger] items_outside_all(items, ids)[k].collection_id@,
            ),
    decreases items.len(),
{
    if items.len() > 0 {
        let init = items.drop_last();
        lemma_items_outside_all(init, ids);
        let rest = items_outside_all(init, ids);
        if !among(ids, items.last().collection_id@) {
            let all = rest.push(items.last());
            assert forall|k: int| 0 <= k < all.len() implies !among(
                ids,
                #[trigger] all[k].collection_id@,
            ) by {
                if k < rest.len() {
                    assert(all[k] == rest[k]);
                }
            }
        }
    }
}

/// The photos of the items of collection `cid`, item by item.
fn photos_of_collection(items: &Vec<Item>, cid: &str) -> (r: Vec<String>)
    ensures
        r@ == photos_in(items@, cid@),
{
    let n: usize = items.len();
    let mut out: Vec<String> = Vec::new();
    let mut i: usize = 0;
    while i < n
        invariant
            n == items@.len(),
            i <= n,
            out@ == photos_in(items@.take(i as int), cid@),
        decreases n - i,
    {
        assert(items@.take(i + 1).drop_last() =~= items@.take(i as int));
        if str_eq(items[i].collection_id.as_str(), cid) {
            let pn: usize = items[i].photos.len();
            let ghost before = out@;
            let mut q: usize = 0;
            while q < pn
                invariant
                    i < n,
                    n == items@.len(),
                    pn == items@[i as int].photos@.len(),
                    q <= pn,
                    out@ == before + items@[i as int].photos@.take(q as int),
                decreases pn - q,
            {
                out.push(items[i].photos[q].clone());
                assert(out@ =~= before + items@[i as int].photos@.take(q + 1));
                q = q + 1;
            }
            assert(items@[i as int].photos@.take(pn as int) =~= items@[i as int].photos@);
        }
        i = i + 1;
    }
    assert(items@.take(n as int) =~= items@);
    out
}

/// Deletes the collections whose ids are listed in `ids` (the checked
/// rows) together with all their items. Returns the photos of the deleted
/// items, collection by collection, whose files are to be removed.
pub fn delete_collections(data: &mut AppData, ids: &Vec<String>) -> (r: Vec<String>)
    ensures
        final(data).templates == old(data).templates,
        final(data).collections@ == collections_not_among(old(data).collections@, ids@),
        final(data).items@ == items_outside_all(old(data).items@, ids@),
        r@ == photos_of_collections(old(data).items@, ids@),
        forall|k: int|
            0 <= k < final(data).items@.len() ==> !among(
                ids@,
                #[trigger] final(data).items@[k].collection_id@,
            ),
{
    let ghost old_data = *data;
    let m: usize = ids.len();
    let mut photos: Vec<String> = Vec::new();
    let mut t: usize = 0;
    while t < m
        invariant
            m == ids@.len(),
            t <= m,
            *data == old_data,
            photos@ == photos_of_collections(old_data.items@, ids@.take(t as int)),
        decreases m - t,
    {
        assert(ids@.take(t + 1).drop_last() =~= ids@.take(t as int));
        let mut ps = photos_of_collection(&data.items, ids[t].as_str());
        photos.append(&mut ps);
        t = t + 1;
    }
    assert(ids@.take(m as int) =~= ids@);
    // items
    let ghost src = old_data.items@;
    let n: usize = data.items.len();
    let mut rest: Vec<Item> = Vec::new();
    std::mem::swap(&mut rest, &mut data.items);
    let mut i: usize = 0;
    while i < n
        invariant
            n == src.len(),
            i <= n,
            rest@ == src.skip(i as int),
            data.items@ == items_outside_all(src.take(i as int), ids@),
            data.collections == old_data.collections,
            data.templates == old_data.templates,
        decreases n - i,
    {
        assert(src.take(i + 1).drop_last() =~= src.take(i as int));
        let it = rest.remove(0);
        assert(it == src[i as int]);
        if !is_among(ids, it.collection_id.as_str()) {
            data.items.push(it);
        }
        assert(rest@ =~= src.skip(i + 1));
        i = i + 1;
    }
    assert(src.take(n as int) =~= src);
    // collections
    let ghost cs = old_data.collections@;
    let nc: usize = data.collections.len();
    let mut rest_c: Vec<Collection> = Vec::new();
    std::mem::swap(&mut rest_c, &mut data.collections);
    let mut j: usize = 0;
    while j < nc
        invariant
            nc == cs.len(),
            j <= nc,
            rest_c@ == cs.skip(j as int),
            data.collections@ == collections_not_among(cs.take(j as int), ids@),
            data.items@ == items_outside_all(src, ids@),
            data.templates == old_data.templates,
        decreases nc - j,
    {
        assert(cs.take(j + 1).drop_last() =~= cs.take(j as int));
        let c = rest_c.remove(0);
        assert(c == cs[j as int]);
        if !is_among(ids, c.id.as_str()) {
            data.collections.push(c);
        }
        assert(rest_c@ =~= cs.skip(j + 1));
        j = j + 1;
    }
    assert(cs.take(nc as int) =~= cs);
    proof {
        lemma_items_outside_all(src, ids@);
    }
    photos
}

/// The items whose id is not among `ids`, in order.
pub open spec fn items_not_among(items: Seq<Item>, ids: Seq<String>) -> Seq<Item>
    decreases items.len(),
{
    if items.len() == 0 {
        Seq::empty()
    } else {
        let rest = items_not_among(items.drop_last(), ids);
        if among(ids, items.last().id@) {
            rest
        } else {
            rest.push(items.last())
        }
    }
}

/// For each id of `ids` in turn, the photos of the first item with that id.
pub open spec fn first_items_photos(items: Seq<Item>, ids: Seq<String>) -> Seq<String>
    decreases ids.len(),
{
    if ids.len() == 0 {
        Seq::empty()
    } else {
        first_items_photos(items, ids.drop_last()) + match first_item(items, ids.last()@) {
            Some(k) => items[k].photos@,
            None => Seq::empty(),
        }
    }
}

/// No item left by `items_not_among` has one of the ids.
proof fn lemma_items_not_among(items: Seq<Item>, ids: Seq<String>)
    ensures
        forall|k: int|
            0 <= k < items_not_among(items, ids).len() ==> !among(
                ids,
                #[trigger] items_not_among(items, ids)[k].id@,
            ),
    decreases items.len(),
{
    if items.len() > 0 {
        let init = items.drop_last();
        lemma_items_not_among(init, ids);
        let rest = items_not_among(init, ids);
        if !among(ids, items.last().id@) {
            let all = rest.push(items.last());
            assert forall|k: int| 0 <= k < all.len() implies !among(
                ids,
                #[trigger] all[k].id@,
            ) by {
                if k < rest.len() {
                    assert(all[k] == rest[k]);
                }
            }
        }
    }
}

/// Deletes the items whose ids are listed in `ids` (the checked rows).
/// Returns, id by id, the photos of the first item with that id, whose files
/// are to be removed.
pub fn delete_items(data: &mut AppData, ids: &Vec<String>) -> (r: Vec<String>)
    ensures
        final(data).collections == old(data).collections,
        final(data).templates == old(data).templates,
        final(data).items@ == items_not_among(old(data).items@, ids@),
        r@ == first_items_photos(old(data).items@, ids@),
        forall|k: int|
            0 <= k < final(data).items@.len() ==> !among(ids@, #[trigger] final(data).items@[k].id@),
{
    let ghost old_data = *data;
    let m: usize = ids.len();
    let mut photos: Vec<String> = Vec::new();
    let mut t: usize = 0;
    while t < m
        invariant
            m == ids@.len(),
            t <= m,
            *data == old_data,
            photos@ == first_items_photos(old_data.items@, ids@.take(t as int)),
        decreases m - t,
    {
        assert(ids@.take(t + 1).drop_last() =~= ids@.take(t as int));
        proof {
            crate::items::lemma_first_item_in_range(data.items@, ids@[t as int]@);
        }
        match find_item(&data.items, ids[t].as_str()) {
            Some(k) => {
                let pn: usize = data.items[k].photos.len();
                let ghost before = photos@;
                let mut q: usize = 0;
                while q < pn
                    invariant
                        k < data.items@.len(),
                        pn == data.items@[k as int].photos@.len(),
                        q <= pn,
                        photos@ == before + data.items@[k as int].photos@.take(q as int),
                    decreases pn - q,
                {
                    photos.push(data.items[k].photos[q].clone());
                    assert(photos@ =~= before + data.items@[k as int].photos@.take(q + 1));
                    q = q + 1;
                }
                assert(data.items@[k as int].photos@.take(pn as int) =~= data.items@[k as int].photos@);
            },
            None => {
                assert(photos@ =~= photos@ + Seq::<String>::empty());
            },
        }
        t = t + 1;
    }
    assert(ids@.take(m as int) =~= ids@);
    let ghost src = old_data.items@;
    let n: usize = data.items.len();
    let mut rest: Vec<Item> = Vec::new();
    std::mem::swap(&mut rest, &mut data.items);
    let mut i: usize = 0;
    while i < n
        invariant
            n == src.len(),
            i <= n,
            rest@ == src.skip(i as int),
            data.items@ == items_not_among(src.take(i as int), ids@),
            data.collections == old_data.collections,
            data.templates == old_data.templates,
        decreases n - i,
    {
        assert(src.take(i + 1).drop_last() =~= src.take(i as int));
        let it = rest.remove(0);
        assert(it == src[i as int]);
        if !is_among(ids, it.id.as_str()) {
            data.items.push(it);
        }
        assert(rest@ =~= src.skip(i + 1));
        i = i + 1;
    }
    assert(src.take(n as int) =~= src);
    proof {
        lemma_items_not_among(src, ids@);
    }
    photos
}

/// `b` is `a` after renaming collection `idx` to `text` without its
/// surrounding white space; blank text or an out-of-range index leaves it
/// unchanged.
pub open spec fn is_collection_rename(a: AppData, idx: int, text: Seq<char>, b: AppData) -> bool {
    if 0 <= idx < a.collections@.len() && trimmed(text).len() > 0 {
        let x = a.collections@[idx];
        let y = b.collections@[idx];
        &&& b.collections@ == a.collections@.update(idx, y)
        &&& y.id == x.id && y.icon == x.icon && y.order == x.order
        &&& y.name@ == trimmed(text)
        &&& b.items == a.items
        &&& b.templates == a.templates
    } else {
        b == a
    }
}

/// A rename takes the given text without the white space around it, and
/// nothing else: when the text is not all white space and the collection
/// exists, only its name changes, to the text with the white space at both
/// ends cut off; when the text is blank or there is no such collection, the
/// catalogue stays as it was.
pub proof fn lemma_collection_rename_trims(a: AppData, idx: int, text: Seq<char>, b: AppData)
    requires
        is_collection_rename(a, idx, text, b),
    ensures
        (is_blank(text) || !(0 <= idx < a.collections@.len())) ==> b == a,
        !is_blank(text) && 0 <= idx < a.collections@.len() ==> {
            let x = a.collections@[idx];
            let y = b.collections@[idx];
            &&& is_space_trimmed(text, y.name@) && y.name@.len() > 0
            &&& y.id == x.id && y.icon == x.icon && y.order == x.order
            &&& b.collections@.len() == a.collections@.len()
            &&& forall|k: int|
                0 <= k < a.collections@.len() && k != idx ==> #[trigger] b.collections@[k]
                    == a.collections@[k]
            &&& b.items == a.items && b.templates == a.templates
        },
{
    lemma_blank_iff_trims_empty(text);
}

/// An item rename takes the given text without the white space around it:
/// when the text is not all white space and an item has the id, only that
/// first item's name changes, to the text with the white space at both ends
/// cut off; otherwise the catalogue stays as it was.
pub proof fn lemma_item_rename_trims(a: AppData, id: Seq<char>, text: Seq<char>, b: AppData)
    requires
        is_item_rename(a, id, text, b),
    ensures
        (is_blank(text) || first_item(a.items@, id) is None) ==> b == a,
        !is_blank(text) && first_item(a.items@, id) is Some ==> {
            let k = first_item(a.items@, id)->0;
            let y = b.items@[k];
            &&& is_space_trimmed(text, y.name@) && y.name@.len() > 0
            &&& y.id == a.items@[k].id && y.custom_fields == a.items@[k].custom_fields
            &&& y.photos == a.items@[k].photos
            &&& b.items@.len() == a.items@.len()
            &&& forall|j: int|
                0 <= j < a.items@.len() && j != k ==> #[trigger] b.items@[j] == a.items@[j]
            &&& b.collections == a.collections && b.templates == a.templates
        },
{
    lemma_blank_iff_trims_empty(text);
    crate::items::lemma_first_item_in_range(a.items@, id);
}

/// Renames collection `idx` to `text` without its surrounding white space.
/// Blank text or an out-of-range index changes nothing. Returns whether the
/// collection was renamed.
pub fn rename_collection(data: &mut AppData, idx: usize, text: &str) -> (r: bool)
    ensures
        r == (idx < old(data).collections@.len() && trimmed(text@).len() > 0),
        is_collection_rename(*old(data), idx as int, text@, *final(data)),
{
    let t = trim(text);
    if idx >= data.collections.len() || t.as_str().unicode_len() == 0 {
        return false;
    }
    let mut c = data.collections.remove(idx);
    c.name = t;
    data.collections.insert(idx, c);
    assert(data.collections@ =~= old(data).collections@.update(idx as int, c));
    true
}

/// `b` is `a` after renaming the first item with the id `id` to `text`
/// without its surrounding white space; blank text or an unknown id leaves
/// it unchanged.
pub open spec fn is_item_rename(a: AppData, id: Seq<char>, text: Seq<char>, b: AppData) -> bool {
    if first_item(a.items@, id) is Some && trimmed(text).len() > 0 {
        let k = first_item(a.items@, id)->0;
        let x = a.items@[k];
        let y = b.items@[k];
        &&& b.items@ == a.items@.update(k, y)
        &&& y.name@ == trimmed(text)
        &&& y.id == x.id && y.collection_id == x.collection_id
        &&& y.short_desc == x.short_desc && y.photos == x.photos
        &&& y.acquired_date == x.acquired_date && y.custom_fields == x.custom_fields
        &&& b.collections == a.collections
        &&& b.templates == a.templates
    } else {
        b == a
    }
}

/// Renames the first item with the id `id` to `text` without its
/// surrounding white space. Blank text or an unknown id changes nothing.
/// Returns whether the item was renamed.
pub fn rename_item(data: &mut AppData, id: &str, text: &str) -> (r: bool)
    ensures
        r == (first_item(old(data).items@, id@) is Some && trimmed(text@).len() > 0),
        is_item_rename(*old(data), id@, text@, *final(data)),
{
    proof {
        crate::items::lemma_first_item_in_range(data.items@, id@);
    }
    let t = trim(text);
    if t.as_str().unicode_len() == 0 {
        return false;
    }
    let k = match find_item(&data.items, id) {
        Some(k) => k,
        None => return false,
    };
    let mut it = data.items.remove(k);
    it.name = t;
    data.items.insert(k, it);
    assert(data.items@ =~= old(data).items@.update(k as int, it));
    true
}

/// The labels of a list of custom fields, in order.
pub open spec fn labels_of(fs: Seq<CustomField>) -> Seq<String> {
    Seq::new(fs.len(), |q: int| fs[q].label)
}

/// The name a saved template gets: the given text, or `Template <n + 1>`
/// when that is blank, `n` being the number of templates before.
pub open spec fn template_name(text: Seq<char>, n: nat) -> Seq<char> {
    if trimmed(text).len() > 0 {
        trimmed(text)
    } else {
        "Template "@ + decimal(n + 1)
    }
}

/// Whether a template can be saved from the first item with the id
/// `item_id`: there is such an item and it has custom fields.
pub open spec fn saves_template(a: AppData, item_id: Seq<char>) -> bool {
    first_item(a.items@, item_id) matches Some(k) && a.items@[k].custom_fields@.len() > 0
}

/// `b` is `a` after saving the custom field labels of the first item with
/// the id `item_id` as a new template named after `text`, when
/// `saves_template` holds; else `b` is `a`.
pub open spec fn is_template_save(a: AppData, item_id: Seq<char>, text: Seq<char>, b: AppData) -> bool {
    &&& b.collections == a.collections
    &&& b.items == a.items
    &&& if saves_template(a, item_id) {
        let k = first_item(a.items@, item_id)->0;
        let t = b.templates@.last();
        &&& b.templates@.len() == a.templates@.len() + 1
        &&& b.templates@.drop_last() == a.templates@
        &&& is_v4_uuid_text(t.id@)
        &&& t.name@ == template_name(text, a.templates@.len())
        &&& t.field_labels@ == labels_of(a.items@[k].custom_fields@)
    } else {
        b.templates == a.templates
    }
}

/// Saves the custom field labels of the first item with the id `item_id`
/// as a new template named after `text` (see `template_name`). An unknown
/// item, or one without custom fields, changes nothing. Returns whether a
/// template was saved.
pub fn save_template(data: &mut AppData, item_id: &str, text: &str) -> (r: bool)
    requires
        old(data).templates@.len() < u64::MAX,
    ensures
        r == saves_template(*old(data), item_id@),
        is_template_save(*old(data), item_id@, text@, *final(data)),
{
    proof {
        crate::items::lemma_first_item_in_range(data.items@, item_id@);
    }
    let k = match find_item(&data.items, item_id) {
        Some(k) => k,
        None => return false,
    };
    let nf: usize = data.items[k].custom_fields.len();
    if nf == 0 {
        return false;
    }
    let mut labels: Vec<String> = Vec::new();
    let mut q: usize = 0;
    while q < nf
        invariant
            k < data.items@.len(),
            nf == data.items@[k as int].custom_fields@.len(),
            q <= nf,
            labels@ == labels_of(data.items@[k as int].custom_fields@).take(q as int),
        decreases nf - q,
    {
        labels.push(data.items[k].custom_fields[q].label.clone());
        assert(labels@ =~= labels_of(data.items@[k as int].custom_fields@).take(q + 1));
        q = q + 1;
    }
    assert(labels@ =~= labels_of(data.items@[k as int].custom_fields@));
    let t = trim(text);
    let name = if t.as_str().unicode_len() > 0 {
        t
    } else {
        let mut n = "Template ".to_owned();
        push_decimal(&mut n, data.templates.len() as u64 + 1);
        n
    };
    data.templates.push(Template { id: new_id(), name, field_labels: labels });
    assert(data.templates@.drop_last() =~= old(data).templates@);
    true
}

/// Renames the first template with the id `tid` to `text` without its
/// surrounding white space. Blank text or an unknown id changes nothing.
/// Returns whether the template was renamed.
pub fn rename_template(data: &mut AppData, tid: &str, text: &str) -> (r: bool)
    ensures
        r == (first_template(old(data).templates@, tid@) is Some && trimmed(text@).len() > 0),
        !r ==> *final(data) == *old(data),
        r ==> {
            let k = first_template(old(data).templates@, tid@)->0;
            let a = old(data).templates@[k];
            let b = final(data).templates@[k];
            &&& final(data).templates@ == old(data).templates@.update(k, b)
            &&& b.id == a.id && b.field_labels == a.field_labels
            &&& b.name@ == trimmed(text@)
            &&& final(data).collections == old(data).collections
            &&& final(data).items == old(data).items
        },
{
    let t = trim(text);
    if t.as_str().unicode_len() == 0 {
        return false;
    }
    let k = match find_template(&data.templates, tid) {
        Some(k) => k,
        None => return false,
    };
    let mut tp = data.templates.remove(k);
    tp.name = t;
    data.templates.insert(k, tp);
    assert(data.templates@ =~= old(data).templates@.update(k as int, tp));
    true
}

/// The templates whose id is not `tid`, in order.
pub open spec fn templates_without(ts: Seq<Template>, tid: Seq<char>) -> Seq<Template>
    decreases ts.len(),
{
    if ts.len() == 0 {
        Seq::empty()
    } else {
        let rest = templates_without(ts.drop_last(), tid);
        if ts.last().id@ == tid {
            rest
        } else {
            rest.push(ts.last())
        }
    }
}

/// Deletes the templates with the id `tid`.
pub fn delete_template(data: &mut AppData, tid: &str)
    ensures
        final(data).collections == old(data).collections,
        final(data).items == old(data).items,
        final(data).templates@ == templates_without(old(data).templates@, tid@),
{
    let ghost src = data.templates@;
    let n: usize = data.templates.len();
    let mut rest: Vec<Template> = Vec::new();
    std::mem::swap(&mut rest, &mut data.templates);
    let mut i: usize = 0;
    while i < n
        invariant
            n == src.len(),
            i <= n,
            rest@ == src.skip(i as int),
            data.templates@ == templates_without(src.take(i as int), tid@),
            data.collections == old(data).collections,
            data.items == old(data).items,
        decreases n - i,
    {
        assert(src.take(i + 1).drop_last() =~= src.take(i as int));
        let t = rest.remove(0);
        assert(t == src[i as int]);
        if !str_eq(t.id.as_str(), tid) {
            data.templates.push(t);
        }
        assert(rest@ =~= src.skip(i + 1));
        i = i + 1;
    }
    assert(src.take(n as int) =~= src);
}

/// Gives collection `idx` the icon `icon`; an out-of-range index changes
/// nothing. Returns whether there is such a collection.
pub fn set_collection_icon(data: &mut AppData, idx: usize, icon: String) -> (r: bool)
    ensures
        r == (idx < old(data).collections@.len()),
        !r ==> *final(data) == *old(data),
        r ==> {
            let a = old(data).collections@[idx as int];
            let b = final(data).collections@[idx as int];
            &&& final(data).collections@ == old(data).collections@.update(idx as int, b)
            &&& b.id == a.id && b.name == a.name && b.order == a.order
            &&& b.icon == icon
            &&& final(data).items == old(data).items
            &&& final(data).templates == old(data).templates
        },
{
    if idx >= data.collections.len() {
        return false;
    }
    let mut c = data.collections.remove(idx);
    c.icon = icon;
    data.collections.insert(idx, c);
    assert(data.collections@ =~= old(data).collections@.update(idx as int, c));
    true
}

/// Appends the photos `names` to those of the first item with the id
/// `item_id`. Returns whether there is such an item; when there is not,
/// nothing changes.
pub fn add_photos(data: &mut AppData, item_id: &str, names: Vec<String>) -> (r: bool)
    ensures
        r == first_item(old(data).items@, item_id@) is Some,
        !r ==> *final(data) == *old(data),
        r ==> {
            let k = first_item(old(data).items@, item_id@)->0;
            let a = old(data).items@[k];
            let b = final(data).items@[k];
            &&& final(data).items@ == old(data).items@.update(k, b)
            &&& b.photos@ == a.photos@ + names@
            &&& b.id == a.id && b.collection_id == a.collection_id && b.name == a.name
            &&& b.short_desc == a.short_desc && b.acquired_date == a.acquired_date
            &&& b.custom_fields == a.custom_fields
            &&& final(data).collections == old(data).collections
            &&& final(data).templates == old(data).templates
        },
{
    proof {
        crate::items::lemma_first_item_in_range(data.items@, item_id@);
    }
    let k = match find_item(&data.items, item_id) {
        Some(k) => k,
        None => return false,
    };
    let mut it = data.items.remove(k);
    let mut more = names;
    it.photos.append(&mut more);
    data.items.insert(k, it);
    assert(data.items@ =~= old(data).items@.update(k as int, it));
    true
}

/// The row a context-menu action applies to: the current position of the
/// row that was right-clicked, found by its id when one was recorded (so a
/// reorder in between cannot redirect the action), else the recorded
/// position if it is still a row.
pub fn resolve_target(ids: &Vec<String>, target_id: &Option<String>, target: usize) -> (r: Option<usize>)
    ensures
        r == match target_id {
            Some(id) => match first_position(ids@, id@) {
                Some(k) => Some(k as usize),
                None => None,
            },
            None => if target < ids@.len() {
                Some(target)
            } else {
                None
            },
        },
{
    match target_id {
        Some(id) => position_of(ids, id.as_str()),
        None => if target < ids.len() {
            Some(target)
        } else {
            None
        },
    }
}

/// The first position of a custom field with the id `fid`.
pub open spec fn first_field(fs: Seq<CustomField>, fid: Seq<char>) -> Option<int>
    decreases fs.len(),
{
    if fs.len() == 0 {
        None
    } else {
        match first_field(fs.drop_last(), fid) {
            Some(k) => Some(k),
            None => if fs.last().id@ == fid {
                Some(fs.len() - 1)
            } else {
                None
            },
        }
    }
}

/// The last position of an edit of the field `fid`.
pub open spec fn last_edit(edits: Seq<CustomField>, fid: Seq<char>) -> Option<int>
    decreases edits.len(),
{
    if edits.len() == 0 {
        None
    } else if edits.last().id@ == fid {
        Some(edits.len() - 1)
    } else {
        last_edit(edits.drop_last(), fid)
    }
}

/// `b` is the field list `a` once the editors' texts `edits` (id, label and
/// value per editor) are written back in turn: the first field with an
/// edited id takes the label and value of the last edit of that id, without
/// trailing newlines; every other field is unchanged.
pub open spec fn fields_edited(a: Seq<CustomField>, edits: Seq<CustomField>, b: Seq<CustomField>) -> bool {
    &&& b.len() == a.len()
    &&& forall|k: int|
        0 <= k < a.len() ==> {
            &&& (#[trigger] b[k]).id == a[k].id
            &&& if first_field(a, a[k].id@) == Some(k) && last_edit(edits, a[k].id@) is Some {
                let e = last_edit(edits, a[k].id@)->0;
                &&& b[k].label@ == without_trailing_newlines(edits[e].label@)
                &&& b[k].value@ == without_trailing_newlines(edits[e].value@)
            } else {
                b[k] == a[k]
            }
        }
}

proof fn lemma_first_field_extend(fs: Seq<CustomField>, fid: Seq<char>, m: int)
    requires
        0 <= m <= fs.len(),
        first_field(fs.take(m), fid) is Some,
    ensures
        first_field(fs, fid) == first_field(fs.take(m), fid),
    decreases fs.len() - m,
{
    if m < fs.len() {
        assert(fs.take(m + 1).drop_last() =~= fs.take(m));
        lemma_first_field_extend(fs, fid, m + 1);
    } else {
        assert(fs.take(m) =~= fs);
    }
}

proof fn lemma_first_field_in_range(fs: Seq<CustomField>, fid: Seq<char>)
    ensures
        first_field(fs, fid) matches Some(k) ==> 0 <= k < fs.len() && fs[k].id@ == fid,
    decreases fs.len(),
{
    if fs.len() > 0 {
        lemma_first_field_in_range(fs.drop_last(), fid);
    }
}

proof fn lemma_last_edit_in_range(edits: Seq<CustomField>, fid: Seq<char>)
    ensures
        last_edit(edits, fid) matches Some(x) ==> 0 <= x < edits.len(),
    decreases edits.len(),
{
    if edits.len() > 0 {
        lemma_last_edit_in_range(edits.drop_last(), fid);
    }
}

/// Field lists with the same ids position by position find the same first
/// field for every id.
proof fn lemma_first_field_same_ids(a: Seq<CustomField>, b: Seq<CustomField>, fid: Seq<char>)
    requires
        a.len() == b.len(),
        forall|k: int| 0 <= k < a.len() ==> #[trigger] a[k].id == b[k].id,
    ensures
        first_field(a, fid) == first_field(b, fid),
    decreases a.len(),
{
    if a.len() > 0 {
        let ai = a.drop_last();
        let bi = b.drop_last();
        assert forall|k: int| 0 <= k < ai.len() implies #[trigger] ai[k].id == bi[k].id by {
            assert(ai[k] == a[k]);
            assert(bi[k] == b[k]);
        }
        lemma_first_field_same_ids(ai, bi, fid);
        assert(a.last().id == b.last().id);
    }
}

/// The position of the first custom field with the id `fid`.
fn find_field(fs: &Vec<CustomField>, fid: &str) -> (r: Option<usize>)
    ensures
        r matches Some(k) ==> first_field(fs@, fid@) == Some(k as int),
        r is None ==> first_field(fs@, fid@) is None,
{
    let n: usize = fs.len();
    let mut k: usize = 0;
    while k < n
        invariant
            n == fs@.len(),
            k <= n,
            first_field(fs@.take(k as int), fid@) is None,
        decreases n - k,
    {
        assert(fs@.take(k + 1).drop_last() =~= fs@.take(k as int));
        if str_eq(fs[k].id.as_str(), fid) {
            proof {
                lemma_first_field_extend(fs@, fid@, k as int + 1);
            }
            return Some(k);
        }
        k = k + 1;
    }
    assert(fs@.take(n as int) =~= fs@);
    None
}

/// Writes the field editors' texts back into `fields`, edit by edit.
fn apply_field_edits(fields: &mut Vec<CustomField>, edits: &Vec<CustomField>)
    ensures
        fields_edited(old(fields)@, edits@, final(fields)@),
{
    let ghost a = fields@;
    let m: usize = edits.len();
    let mut e: usize = 0;
    assert(edits@.take(0) =~= Seq::<CustomField>::empty());
    while e < m
        invariant
            m == edits@.len(),
            e <= m,
            a == old(fields)@,
            fields_edited(a, edits@.take(e as int), fields@),
        decreases m - e,
    {
        let ghost s = fields@;
        let ghost pre = edits@.take(e as int);
        let ghost post = edits@.take(e + 1);
        let ghost eid = edits@[e as int].id@;
        assert(post.drop_last() =~= pre);
        assert(post.last() == edits@[e as int]);
        assert forall|q: int| 0 <= q < pre.len() implies #[trigger] post[q] == pre[q] by {}
        proof {
            lemma_first_field_same_ids(a, s, eid);
            lemma_first_field_in_range(s, eid);
        }
        match find_field(fields, edits[e].id.as_str()) {
            Some(k) => {
                let mut f = fields.remove(k);
                f.label = trim_trailing_newlines(edits[e].label.as_str());
                f.value = trim_trailing_newlines(edits[e].value.as_str());
                fields.insert(k, f);
                proof {
                    assert(fields@ =~= s.update(k as int, f));
                    assert forall|j: int| 0 <= j < a.len() implies {
                        &&& (#[trigger] fields@[j]).id == a[j].id
                        &&& if first_field(a, a[j].id@) == Some(j) && last_edit(post, a[j].id@) is Some {
                            let x = last_edit(post, a[j].id@)->0;
                            &&& fields@[j].label@ == without_trailing_newlines(post[x].label@)
                            &&& fields@[j].value@ == without_trailing_newlines(post[x].value@)
                        } else {
                            fields@[j] == a[j]
                        }
                    } by {
                        assert(s[j].id == a[j].id);
                        if j != k {
                            assert(fields@[j] == s[j]);
                            if a[j].id@ == eid {
                                assert(first_field(a, a[j].id@) == Some(k as int));
                            } else {
                                assert(last_edit(post, a[j].id@) == last_edit(pre, a[j].id@));
                                if last_edit(pre, a[j].id@) is Some {
                                    let x = last_edit(pre, a[j].id@)->0;
                                    lemma_last_edit_in_range(pre, a[j].id@);
                                    assert(post[x] == pre[x]);
                                }
                            }
                        } else {
                            assert(a[j].id@ == eid);
                            assert(last_edit(post, eid) == Some(e as int));
                        }
                    }
                }
            },
            None => {
                proof {
                    assert forall|j: int| 0 <= j < a.len() implies {
                        &&& (#[trigger] fields@[j]).id == a[j].id
                        &&& if first_field(a, a[j].id@) == Some(j) && last_edit(post, a[j].id@) is Some {
                            let x = last_edit(post, a[j].id@)->0;
                            &&& fields@[j].label@ == without_trailing_newlines(post[x].label@)
                            &&& fields@[j].value@ == without_trailing_newlines(post[x].value@)
                        } else {
                            fields@[j] == a[j]
                        }
                    } by {
                        if a[j].id@ == eid {
                            assert(first_field(a, eid) is None);
                        } else {
                            assert(last_edit(post, a[j].id@) == last_edit(pre, a[j].id@));
                            if last_edit(pre, a[j].id@) is Some {
                                let x = last_edit(pre, a[j].id@)->0;
                                lemma_last_edit_in_range(pre, a[j].id@);
                                assert(post[x] == pre[x]);
                            }
                        }
                    }
                }
            },
        }
        e = e + 1;
    }
    assert(edits@.take(m as int) =~= edits@);
}

/// `b` is `a` once the detail editors are written back into the first item
/// with the id `item_id` (see `flush_edits`); `b` is `a` when there is no
/// such item.
pub open spec fn is_flush(
    a: AppData,
    item_id: Seq<char>,
    name: Seq<char>,
    desc: Seq<char>,
    date: String,
    edits: Seq<CustomField>,
    b: AppData,
) -> bool {
    if first_item(a.items@, item_id) is Some {
        let k = first_item(a.items@, item_id)->0;
        let x = a.items@[k];
        let y = b.items@[k];
        &&& b.items@ == a.items@.update(k, y)
        &&& y.id == x.id && y.collection_id == x.collection_id && y.photos == x.photos
        &&& y.name@ == without_trailing_newlines(name)
        &&& y.short_desc@ == without_trailing_newlines(desc)
        &&& y.acquired_date == date
        &&& fields_edited(x.custom_fields@, edits, y.custom_fields@)
        &&& b.collections == a.collections
        &&& b.templates == a.templates
    } else {
        b == a
    }
}

/// Writing the editors back cuts off exactly the trailing newlines the
/// editors' texts end in, and nothing else: the item's name and description
/// are the editors' texts without them, and each custom field that an editor
/// (the last one with its id) writes to takes that editor's label and value
/// without them; every other field keeps its label and value, and every
/// field keeps its id and position.
pub proof fn lemma_flush_cuts_trailing_newlines(
    a: AppData,
    item_id: Seq<char>,
    name: Seq<char>,
    desc: Seq<char>,
    date: String,
    edits: Seq<CustomField>,
    b: AppData,
)
    requires
        is_flush(a, item_id, name, desc, date, edits, b),
        first_item(a.items@, item_id) is Some,
    ensures
        ({
            let k = first_item(a.items@, item_id)->0;
            let x = a.items@[k];
            let y = b.items@[k];
            &&& is_newline_trimmed(name, y.name@)
            &&& is_newline_trimmed(desc, y.short_desc@)
            &&& y.acquired_date == date
            &&& y.custom_fields@.len() == x.custom_fields@.len()
            &&& forall|j: int|
                0 <= j < x.custom_fields@.len() ==> {
                    let f = x.custom_fields@[j];
                    let g = #[trigger] y.custom_fields@[j];
                    &&& g.id == f.id
                    &&& if first_field(x.custom_fields@, f.id@) == Some(j) && last_edit(
                        edits,
                        f.id@,
                    ) is Some {
                        let e = last_edit(edits, f.id@)->0;
                        &&& 0 <= e < edits.len() && edits[e].id@ == f.id@
                        &&& is_newline_trimmed(edits[e].label@, g.label@)
                        &&& is_newline_trimmed(edits[e].value@, g.value@)
                    } else {
                        g.label == f.label && g.value == f.value
                    }
                }
        }),
{
    let k = first_item(a.items@, item_id)->0;
    let x = a.items@[k];
    let y = b.items@[k];
    lemma_without_trailing_newlines(name);
    lemma_without_trailing_newlines(desc);
    assert forall|j: int| 0 <= j < x.custom_fields@.len() implies {
        let f = x.custom_fields@[j];
        let g = #[trigger] y.custom_fields@[j];
        &&& g.id == f.id
        &&& if first_field(x.custom_fields@, f.id@) == Some(j) && last_edit(edits, f.id@) is Some {
            let e = last_edit(edits, f.id@)->0;
            &&& 0 <= e < edits.len() && edits[e].id@ == f.id@
            &&& is_newline_trimmed(edits[e].label@, g.label@)
            &&& is_newline_trimmed(edits[e].value@, g.value@)
        } else {
            g.label == f.label && g.value == f.value
        }
    } by {
        let f = x.custom_fields@[j];
        if first_field(x.custom_fields@, f.id@) == Some(j) && last_edit(edits, f.id@) is Some {
            let e = last_edit(edits, f.id@)->0;
            lemma_last_edit_found(edits, f.id@);
            lemma_without_trailing_newlines(edits[e].label@);
            lemma_without_trailing_newlines(edits[e].value@);
        }
    }
}

/// The last edit of a field, when there is one, lies in the list and edits
/// that field.
proof fn lemma_last_edit_found(edits: Seq<CustomField>, fid: Seq<char>)
    ensures
        last_edit(edits, fid) matches Some(x) ==> 0 <= x < edits.len() && edits[x].id@ == fid,
    decreases edits.len(),
{
    if edits.len() > 0 && edits.last().id@ != fid {
        lemma_last_edit_found(edits.drop_last(), fid);
    }
}

/// Writes the detail editors back into the first item with the id
/// `item_id`: its name and description become the editors' texts without
/// trailing newlines, its acquired date `date` (as assembled from the date
/// editors), and its custom fields take the field editors' texts `edits`
/// (see `fields_edited`). Returns whether there is such an item; when there
/// is not, nothing changes.
pub fn flush_edits(
    data: &mut AppData,
    item_id: &str,
    name: &str,
    desc: &str,
    date: String,
    edits: &Vec<CustomField>,
) -> (r: bool)
    ensures
        r == first_item(old(data).items@, item_id@) is Some,
        is_flush(*old(data), item_id@, name@, desc@, date, edits@, *final(data)),
{
    proof {
        crate::items::lemma_first_item_in_range(data.items@, item_id@);
    }
    let k = match find_item(&data.items, item_id) {
        Some(k) => k,
        None => return false,
    };
    let mut it = data.items.remove(k);
    it.name = trim_trailing_newlines(name);
    it.short_desc = trim_trailing_newlines(desc);
    it.acquired_date = date;
    apply_field_edits(&mut it.custom_fields, edits);
    data.items.insert(k, it);
    assert(data.items@ =~= old(data).items@.update(k as int, it));
    true
}

/// The number of checked rows.
pub open spec fn count_checked(c: Seq<bool>) -> nat
    decreases c.len(),
{
    if c.len() == 0 {
        0
    } else {
        count_checked(c.drop_last()) + if c.last() {
            1nat
        } else {
            0nat
        }
    }
}

/// Whether at least two rows are checked, so that a context-menu action
/// applies to all checked rows rather than to the clicked one.
pub fn several_checked(c: &Vec<bool>) -> (r: bool)
    ensures
        r == (count_checked(c@) >= 2),
{
    let n: usize = c.len();
    let mut k: usize = 0;
    let mut i: usize = 0;
    while i < n
        invariant
            n == c@.len(),
            i <= n,
            k == count_checked(c@.take(i as int)),
            k <= i,
        decreases n - i,
    {
        assert(c@.take(i + 1).drop_last() =~= c@.take(i as int));
        if c[i] {
            k = k + 1;
        }
        i = i + 1;
    }
    assert(c@.take(n as int) =~= c@);
    k >= 2
}

/// The command a context-menu entry runs.
#[derive(Debug, Clone, Copy, PartialEq, Eq, Structural)]
pub enum ContextCommand {
    DuplicateCheckedCollections,
    DuplicateCollection(usize),
    DuplicateCheckedItems,
    DuplicateSelectedItem,
    DeleteCheckedCollections,
    DeleteCollection(usize),
    DeleteCheckedItems,
    DeleteSelectedItem,
}

/// The command behind the context menu's duplicate entry (`danger` false)
/// or delete entry (`danger` true), opened on a collection row or an item
/// row. With several rows checked it applies to all of them; otherwise to
/// the right-clicked collection, found again at `resolved` (`None`, the row
/// is gone: nothing runs), or to the selected item.
pub fn context_command(on_collection: bool, multi: bool, resolved: Option<usize>, danger: bool) -> (r:
    Option<ContextCommand>)
    ensures
        r == if on_collection {
            if multi {
                Some(
                    if danger {
                        ContextCommand::DeleteCheckedCollections
                    } else {
                        ContextCommand::DuplicateCheckedCollections
                    },
                )
            } else {
                match resolved {
                    Some(i) => Some(
                        if danger {
                            ContextCommand::DeleteCollection(i)
                        } else {
                            ContextCommand::DuplicateCollection(i)
                        },
                    ),
                    None => None,
                }
            }
        } else if multi {
            Some(
                if danger {
                    ContextCommand::DeleteCheckedItems
                } else {
                    ContextCommand::DuplicateCheckedItems
                },
            )
        } else {
            Some(
                if danger {
                    ContextCommand::DeleteSelectedItem
                } else {
                    ContextCommand::DuplicateSelectedItem
                },
            )
        },
{
    if on_collection {
        if multi {
            if danger {
                Some(ContextCommand::DeleteCheckedCollections)
            } else {
                Some(ContextCommand::DuplicateCheckedCollections)
            }
        } else {
            match resolved {
                Some(i) => if danger {
                    Some(ContextCommand::DeleteCollection(i))
                } else {
                    Some(ContextCommand::DuplicateCollection(i))
                },
                None => None,
            }
        }
    } else if multi {
        if danger {
            Some(ContextCommand::DeleteCheckedItems)
        } else {
            Some(ContextCommand::DuplicateCheckedItems)
        }
    } else if danger {
        Some(ContextCommand::DeleteSelectedItem)
    } else {
        Some(ContextCommand::DuplicateSelectedItem)
    }
}

} // verus!
