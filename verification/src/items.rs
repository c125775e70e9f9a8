//! Editing items, their custom fields, and templates of field labels.
use vstd::prelude::*;
use crate::model::{AppData, CustomField, Item, Template};
use crate::photos::{is_v4_uuid_text, new_id};
use crate::text::str_eq;

verus! {

/// The first position of an item with the id `id`.
pub open spec fn first_item(items: Seq<Item>, id: Seq<char>) -> Option<int>
    decreases items.len(),
{
    if items.len() == 0 {
        None
    } else {
        match first_item(items.drop_last(), id) {
            Some(k) => Some(k),
            None => if items.last().id@ == id {
                Some(items.len() - 1)
            } else {
                None
            },
        }
    }
}

/// The last position of an item with the id `id`.
pub open spec fn last_item(items: Seq<Item>, id: Seq<char>) -> Option<int>
    decreases items.len(),
{
    if items.len() == 0 {
        None
    } else if items.last().id@ == id {
        Some(items.len() - 1)
    } else {
        last_item(items.drop_last(), id)
    }
}

proof fn lemma_first_item_extend(items: Seq<Item>, id: Seq<char>, m: int)
    requires
        0 <= m <= items.len(),
        first_item(items.take(m), id) is Some,
    ensures
        first_item(items, id) == first_item(items.take(m), id),
    decreases items.len() - m,
{
    if m < items.len() {
        assert(items.take(m + 1).drop_last() =~= items.take(m));
        lemma_first_item_extend(items, id, m + 1);
    } else {
        assert(items.take(m) =~= items);
    }
}

pub(crate) proof fn lemma_first_item_in_range(items: Seq<Item>, id: Seq<char>)
    ensures
        first_item(items, id) matches Some(k) ==> 0 <= k < items.len() && items[k].id@ == id,
    decreases items.len(),
{
    if items.len() > 0 {
        lemma_first_item_in_range(items.drop_last(), id);
    }
}

proof fn lemma_last_item_in_range(items: Seq<Item>, id: Seq<char>)
    ensures
        last_item(items, id) matches Some(k) ==> 0 <= k < items.len() && items[k].id@ == id,
    decreases items.len(),
{
    if items.len() > 0 {
        lemma_last_item_in_range(items.drop_last(), id);
    }
}

/// The position of the first item with the id `id`.
pub fn find_item(items: &Vec<Item>, id: &str) -> (r: Option<usize>)
    ensures
        r matches Some(k) ==> first_item(items@, id@) == Some(k as int),
        r is None ==> first_item(items@, id@) is None,
{
    let n: usize = items.len();
    let mut k: usize = 0;
    while k < n
        invariant
            n == items@.len(),
            k <= n,
            first_item(items@.take(k as int), id@) is None,
        decreases n - k,
    {
        assert(items@.take(k + 1).drop_last() =~= items@.take(k as int));
        if str_eq(items[k].id.as_str(), id) {
            proof {
                lemma_first_item_extend(items@, id@, k as int + 1);
            }
            return Some(k);
        }
        k = k + 1;
    }
    assert(items@.take(n as int) =~= items@);
    None
}

/// The position of the last item with the id `id`.
fn find_last_item(items: &Vec<Item>, id: &str) -> (r: Option<usize>)
    ensures
        r matches Some(k) ==> last_item(items@, id@) == Some(k as int),
        r is None ==> last_item(items@, id@) is None,
{
    let n: usize = items.len();
    let mut k: usize = n;
    assert(items@.take(n as int) =~= items@);
    while k > 0
        invariant
            n == items@.len(),
            k <= n,
            last_item(items@, id@) == last_item(items@.take(k as int), id@),
        decreases k,
    {
        if str_eq(items[k - 1].id.as_str(), id) {
            assert(items@.take(k as int).last() == items@[k - 1]);
            return Some(k - 1);
        }
        assert(items@.take(k as int).drop_last() =~= items@.take(k - 1));
        k = k - 1;
    }
    None
}

/// The items whose id is not `id`, in order.
pub open spec fn items_without(items: Seq<Item>, id: Seq<char>) -> Seq<Item>
    decreases items.len(),
{
    if items.len() == 0 {
        Seq::empty()
    } else {
        let rest = items_without(items.drop_last(), id);
        if items.last().id@ == id {
            rest
        } else {
            rest.push(items.last())
        }
    }
}

/// Deletes every item with the id `id`. Returns the photos of the first such
/// item, whose files are to be removed.
pub fn delete_item(data: &mut AppData, id: &str) -> (r: Vec<String>)
    ensures
        final(data).collections == old(data).collections,
        final(data).templates == old(data).templates,
        final(data).items@ == items_without(old(data).items@, id@),
        r@ == match first_item(old(data).items@, id@) {
            Some(k) => old(data).items@[k].photos@,
            None => Seq::empty(),
        },
{
    let ghost src = data.items@;
    proof {
        lemma_first_item_in_range(src, id@);
    }
    let mut photos: Vec<String> = Vec::new();
    let found = find_item(&data.items, id);
    match found {
        Some(k) => {
            let pn: usize = data.items[k].photos.len();
            let mut q: usize = 0;
            while q < pn
                invariant
                    k < data.items@.len(),
                    data.items@ == src,
                    pn == src[k as int].photos@.len(),
                    q <= pn,
                    photos@ == src[k as int].photos@.take(q as int),
                decreases pn - q,
            {
                photos.push(data.items[k].photos[q].clone());
                assert(photos@ =~= src[k as int].photos@.take(q + 1));
                q = q + 1;
            }
            assert(photos@ =~= src[k as int].photos@);
        },
        None => {},
    }
    let n: usize = data.items.len();
    let mut rest: Vec<Item> = Vec::new();
    std::mem::swap(&mut rest, &mut data.items);
    let mut i: usize = 0;
    while i < n
        invariant
            n == src.len(),
            i <= n,
            rest@ == src.skip(i as int),
            data.items@ == items_without(src.take(i as int), id@),
            data.collections == old(data).collections,
            data.templates == old(data).templates,
        decreases n - i,
    {
        assert(src.take(i + 1).drop_last() =~= src.take(i as int));
        let it = rest.remove(0);
        assert(it == src[i as int]);
        if !str_eq(it.id.as_str(), id) {
            data.items.push(it);
        }
        assert(rest@ =~= src.skip(i + 1));
        i = i + 1;
    }
    assert(src.take(n as int) =~= src);
    photos
}

/// A fresh, empty custom field labelled `NEW FIELD`.
pub fn new_custom_field() -> (r: CustomField)
    ensures
        is_v4_uuid_text(r.id@),
        r.label@ == "NEW FIELD"@,
        r.value@ == Seq::<char>::empty(),
{
    CustomField { id: new_id(), label: "NEW FIELD".to_owned(), value: String::new() }
}

/// The fields whose id is not `fid`, in order.
pub open spec fn fields_without(fields: Seq<CustomField>, fid: Seq<char>) -> Seq<CustomField>
    decreases fields.len(),
{
    if fields.len() == 0 {
        Seq::empty()
    } else {
        let rest = fields_without(fields.drop_last(), fid);
        if fields.last().id@ == fid {
            rest
        } else {
            rest.push(fields.last())
        }
    }
}

/// Removes the custom fields with the id `fid`.
pub fn delete_custom_field(fields: &mut Vec<CustomField>, fid: &str)
    ensures
        final(fields)@ == fields_without(old(fields)@, fid@),
{
    let ghost src = fields@;
    let n: usize = fields.len();
    let mut rest: Vec<CustomField> = Vec::new();
    std::mem::swap(&mut rest, fields);
    let mut i: usize = 0;
    while i < n
        invariant
            n == src.len(),
            i <= n,
            rest@ == src.skip(i as int),
            fields@ == fields_without(src.take(i as int), fid@),
        decreases n - i,
    {
        assert(src.take(i + 1).drop_last() =~= src.take(i as int));
        let f = rest.remove(0);
        assert(f == src[i as int]);
        if !str_eq(f.id.as_str(), fid) {
            fields.push(f);
        }
        assert(rest@ =~= src.skip(i + 1));
        i = i + 1;
    }
    assert(src.take(n as int) =~= src);
}

/// Custom fields made from template labels: one per label, in order, each
/// with a fresh id and an empty value.
pub fn fields_from_labels(labels: &Vec<String>) -> (r: Vec<CustomField>)
    ensures
        r@.len() == labels@.len(),
        forall|k: int|
            0 <= k < labels@.len() ==> {
                &&& #[trigger] r@[k].label == labels@[k]
                &&& r@[k].value@ == Seq::<char>::empty()
                &&& is_v4_uuid_text(r@[k].id@)
            },
{
    let n: usize = labels.len();
    let mut out: Vec<CustomField> = Vec::new();
    let mut i: usize = 0;
    while i < n
        invariant
            n == labels@.len(),
            i <= n,
            out@.len() == i,
            forall|k: int|
                0 <= k < i ==> {
                    &&& #[trigger] out@[k].label == labels@[k]
                    &&& out@[k].value@ == Seq::<char>::empty()
                    &&& is_v4_uuid_text(out@[k].id@)
                },
        decreases n - i,
    {
        out.push(CustomField { id: new_id(), label: labels[i].clone(), value: String::new() });
        i = i + 1;
    }
    out
}

/// The first position of a template with the id `tid`.
pub open spec fn first_template(ts: Seq<Template>, tid: Seq<char>) -> Option<int>
    decreases ts.len(),
{
    if ts.len() == 0 {
        None
    } else {
        match first_template(ts.drop_last(), tid) {
            Some(k) => Some(k),
            None => if ts.last().id@ == tid {
                Some(ts.len() - 1)
            } else {
                None
            },
        }
    }
}

proof fn lemma_first_template_extend(ts: Seq<Template>, tid: Seq<char>, m: int)
    requires
        0 <= m <= ts.len(),
        first_template(ts.take(m), tid) is Some,
    ensures
        first_template(ts, tid) == first_template(ts.take(m), tid),
    decreases ts.len() - m,
{
    if m < ts.len() {
        assert(ts.take(m + 1).drop_last() =~= ts.take(m));
        lemma_first_template_extend(ts, tid, m + 1);
    } else {
        assert(ts.take(m) =~= ts);
    }
}

/// The position of the first template with the id `tid`.
pub fn find_template(ts: &Vec<Template>, tid: &str) -> (r: Option<usize>)
    ensures
        r matches Some(k) ==> first_template(ts@, tid@) == Some(k as int) && k < ts@.len(),
        r is None ==> first_template(ts@, tid@) is None,
{
    let n: usize = ts.len();
    let mut k: usize = 0;
    while k < n
        invariant
            n == ts@.len(),
            k <= n,
            first_template(ts@.take(k as int), tid@) is None,
        decreases n - k,
    {
        assert(ts@.take(k + 1).drop_last() =~= ts@.take(k as int));
        if str_eq(ts[k].id.as_str(), tid) {
            proof {
                lemma_first_template_extend(ts@, tid@, k as int + 1);
            }
            return Some(k);
        }
        k = k + 1;
    }
    assert(ts@.take(n as int) =~= ts@);
    None
}

/// Replaces the custom fields of the item `item_id` with fresh, empty fields
/// labelled as template `tid` says (no fields when there is no such
/// template). Returns whether the item exists.
pub fn apply_template(data: &mut AppData, item_id: &str, tid: &str) -> (r: bool)
    ensures
        final(data).collections == old(data).collections,
        final(data).templates == old(data).templates,
        r == first_item(old(data).items@, item_id@) is Some,
        match first_item(old(data).items@, item_id@) {
            None => final(data).items == old(data).items,
            Some(k) => {
                let labels = match first_template(old(data).templates@, tid@) {
                    Some(t) => old(data).templates@[t].field_labels@,
                    None => Seq::empty(),
                };
                let a = old(data).items@[k];
                let b = final(data).items@[k];
                &&& final(data).items@.len() == old(data).items@.len()
                &&& forall|j: int|
                    0 <= j < old(data).items@.len() && j != k ==> #[trigger] final(data).items@[j]
                        == old(data).items@[j]
                &&& b.id == a.id && b.collection_id == a.collection_id && b.name == a.name
                &&& b.short_desc == a.short_desc && b.photos == a.photos
                &&& b.acquired_date == a.acquired_date
                &&& b.custom_fields@.len() == labels.len()
                &&& forall|q: int|
                    0 <= q < labels.len() ==> {
                        &&& #[trigger] b.custom_fields@[q].label == labels[q]
                        &&& b.custom_fields@[q].value@ == Seq::<char>::empty()
                        &&& is_v4_uuid_text(b.custom_fields@[q].id@)
                    }
            },
        },
{
    proof {
        lemma_first_item_in_range(data.items@, item_id@);
    }
    let k = match find_item(&data.items, item_id) {
        Some(k) => k,
        None => return false,
    };
    let fields = match find_template(&data.templates, tid) {
        Some(t) => fields_from_labels(&data.templates[t].field_labels),
        None => Vec::new(),
    };
    let mut it = data.items.remove(k);
    it.custom_fields = fields;
    data.items.insert(k, it);
    true
}

/// Puts a new custom field at the end of the item `item_id`'s fields.
/// Returns whether the item exists.
pub fn add_custom_field(data: &mut AppData, item_id: &str) -> (r: bool)
    ensures
        final(data).collections == old(data).collections,
        final(data).templates == old(data).templates,
        r == first_item(old(data).items@, item_id@) is Some,
        match first_item(old(data).items@, item_id@) {
            None => final(data).items == old(data).items,
            Some(k) => {
                let a = old(data).items@[k];
                let b = final(data).items@[k];
                &&& final(data).items@.len() == old(data).items@.len()
                &&& forall|j: int|
                    0 <= j < old(data).items@.len() && j != k ==> #[trigger] final(data).items@[j]
                        == old(data).items@[j]
                &&& b.id == a.id && b.collection_id == a.collection_id && b.name == a.name
                &&& b.short_desc == a.short_desc && b.photos == a.photos
                &&& b.acquired_date == a.acquired_date
                &&& b.custom_fields@.len() == a.custom_fields@.len() + 1
                &&& b.custom_fields@.take(a.custom_fields@.len() as int) == a.custom_fields@
                &&& b.custom_fields@.last().label@ == "NEW FIELD"@
                &&& b.custom_fields@.last().value@ == Seq::<char>::empty()
                &&& is_v4_uuid_text(b.custom_fields@.last().id@)
            },
        },
{
    proof {
        lemma_first_item_in_range(data.items@, item_id@);
    }
    let k = match find_item(&data.items, item_id) {
        Some(k) => k,
        None => return false,
    };
    let mut it = data.items.remove(k);
    let ghost before = it.custom_fields@;
    it.custom_fields.push(new_custom_field());
    assert(it.custom_fields@.take(before.len() as int) =~= before);
    data.items.insert(k, it);
    true
}

/// A copy of the item `id` inserted right after the last item with that id:
/// a fresh id, the name followed by ` (copy)`, the given photos (copies of
/// the original's files), and fresh ids for its custom fields. Returns whether
/// the item exists.
pub fn duplicate_item(data: &mut AppData, id: &str, copied_photos: Vec<String>) -> (r: bool)
    ensures
        final(data).collections == old(data).collections,
        final(data).templates == old(data).templates,
        r == first_item(old(data).items@, id@) is Some,
        match (first_item(old(data).items@, id@), last_item(old(data).items@, id@)) {
            (Some(k), Some(l)) => {
                let a = old(data).items@[k];
                let b = final(data).items@[l + 1];
                &&& final(data).items@ == old(data).items@.insert(l + 1, b)
                &&& is_v4_uuid_text(b.id@)
                &&& b.collection_id == a.collection_id
                &&& b.name@ == a.name@ + " (copy)"@
                &&& b.short_desc == a.short_desc
                &&& b.acquired_date == a.acquired_date
                &&& b.photos@ == copied_photos@
                &&& b.custom_fields@.len() == a.custom_fields@.len()
                &&& forall|q: int|
                    0 <= q < a.custom_fields@.len() ==> {
                        &&& #[trigger] b.custom_fields@[q].label == a.custom_fields@[q].label
                        &&& b.custom_fields@[q].value == a.custom_fields@[q].value
                        &&& is_v4_uuid_text(b.custom_fields@[q].id@)
                    }
            },
            _ => final(data).items == old(data).items,
        },
{
    proof {
        lemma_first_item_in_range(data.items@, id@);
        lemma_last_item_in_range(data.items@, id@);
        if first_item(data.items@, id@) is Some {
            lemma_last_exists(data.items@, id@);
        } else {
            lemma_none_first_none_last(data.items@, id@);
        }
    }
    let k = match find_item(&data.items, id) {
        Some(k) => k,
        None => return false,
    };
    let l = match find_last_item(&data.items, id) {
        Some(l) => l,
        None => return false,
    };
    let src = &data.items[k];
    let mut name = src.name.clone();
    name.append(" (copy)");
    let nf: usize = src.custom_fields.len();
    let mut fields: Vec<CustomField> = Vec::new();
    let mut q: usize = 0;
    while q < nf
        invariant
            k < data.items@.len(),
            l < data.items@.len(),
            nf == data.items@[k as int].custom_fields@.len(),
            q <= nf,
            fields@.len() == q,
            forall|t: int|
                0 <= t < q ==> {
                    &&& #[trigger] fields@[t].label == data.items@[k as int].custom_fields@[t].label
                    &&& fields@[t].value == data.items@[k as int].custom_fields@[t].value
                    &&& is_v4_uuid_text(fields@[t].id@)
                },
        decreases nf - q,
    {
        let f = &data.items[k].custom_fields[q];
        fields.push(CustomField { id: new_id(), label: f.label.clone(), value: f.value.clone() });
        q = q + 1;
    }
    let copy = Item {
        id: new_id(),
        collection_id: data.items[k].collection_id.clone(),
        name,
        short_desc: data.items[k].short_desc.clone(),
        photos: copied_photos,
        acquired_date: data.items[k].acquired_date.clone(),
        custom_fields: fields,
    };
    let len: usize = data.items.len();
    assert(l < len);
    let pos: usize = l + 1;
    data.items.insert(pos, copy);
    true
}

proof fn lemma_last_exists(items: Seq<Item>, id: Seq<char>)
    requires
        first_item(items, id) is Some,
    ensures
        last_item(items, id) is Some,
    decreases items.len(),
{
    if items.len() > 0 && items.last().id@ != id {
        lemma_last_exists(items.drop_last(), id);
    }
}

proof fn lemma_none_first_none_last(items: Seq<Item>, id: Seq<char>)
    requires
        first_item(items, id) is None,
    ensures
        last_item(items, id) is None,
    decreases items.len(),
{
    if items.len() > 0 {
        lemma_none_first_none_last(items.drop_last(), id);
    }
}

} // verus!
