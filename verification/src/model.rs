//! The catalogue's records, their sort modes, and the operations on them.
use vstd::prelude::*;
use crate::order::{
    Key, SortKey, is_stable_sort, lemma_stable_sort_idempotent, precedes, stable_sort,
    stable_sort_witness,
};
use crate::text::{lowercase, str_eq, text_lt, to_lowercase};
use crate::paths::{
    file_name, is_absolute, lemma_file_name_idempotent, lemma_file_name_plain, path_file_name,
    resolved_photo, thumb_name,
};

verus! {

/// A named group of items.
#[derive(Debug, Clone)]
pub struct Collection {
    pub id: String,
    pub name: String,
    pub icon: String,
    /// Monotonic insertion order, used for the "Date added" sort.
    pub order: u64,
}

/// One catalogued object.
#[derive(Debug, Clone)]
pub struct Item {
    pub id: String,
    pub collection_id: String,
    pub name: String,
    pub short_desc: String,
    /// Stored photo names; `photos[0]` is the primary one.
    pub photos: Vec<String>,
    /// Date acquired, "YYYY-MM-DD" with zero-filled unknown parts, or "".
    pub acquired_date: String,
    pub custom_fields: Vec<CustomField>,
}

/// A user-defined label/value pair on an item.
#[derive(Debug, Clone)]
pub struct CustomField {
    pub id: String,
    pub label: String,
    pub value: String,
}

/// A reusable list of custom field labels.
#[derive(Debug, Clone)]
pub struct Template {
    pub id: String,
    pub name: String,
    pub field_labels: Vec<String>,
}

/// Everything the catalogue stores.
#[derive(Debug, Clone)]
pub struct AppData {
    pub collections: Vec<Collection>,
    pub items: Vec<Item>,
    pub templates: Vec<Template>,
}

/// The five orderings offered for both panels.
#[derive(Debug, Clone, Copy, PartialEq, Eq, Structural)]
pub enum SortMode {
    /// Insertion order.
    Added,
    NameAsc,
    NameDesc,
    /// Collections: fewest items first. Items: oldest acquired first.
    LowOrOld,
    /// Collections: most items first. Items: newest acquired first.
    HighOrNew,
}

impl Default for SortMode {
    fn default() -> (r: Self)
        ensures
            r == SortMode::Added,
    {
        SortMode::Added
    }
}

impl Default for Item {
    fn default() -> (r: Self)
        ensures
            r.id@ == Seq::<char>::empty(),
            r.collection_id@ == Seq::<char>::empty(),
            r.name@ == Seq::<char>::empty(),
            r.short_desc@ == Seq::<char>::empty(),
            r.photos@ == Seq::<String>::empty(),
            r.acquired_date@ == Seq::<char>::empty(),
            r.custom_fields@ == Seq::<CustomField>::empty(),
    {
        Item {
            id: String::new(),
            collection_id: String::new(),
            name: String::new(),
            short_desc: String::new(),
            photos: Vec::new(),
            acquired_date: String::new(),
            custom_fields: Vec::new(),
        }
    }
}

impl Default for AppData {
    fn default() -> (r: Self)
        ensures
            r.collections@ == Seq::<Collection>::empty(),
            r.items@ == Seq::<Item>::empty(),
            r.templates@ == Seq::<Template>::empty(),
    {
        AppData { collections: Vec::new(), items: Vec::new(), templates: Vec::new() }
    }
}

/// Dark mode is on unless the settings say otherwise.
pub fn default_dark_mode() -> (r: bool)
    ensures
        r,
{
    true
}

/// The accent colour used when the settings name none.
pub fn default_accent_hex() -> (r: String)
    ensures
        r@ == seq!['#', '4', 'f', '8', 'e', 'f', '7'],
{
    let r = "#4f8ef7".to_owned();
    proof {
        reveal_strlit("#4f8ef7");
    }
    r
}

/// The largest insertion order among `cs` (0 when there are none).
pub open spec fn max_order(cs: Seq<Collection>) -> nat
    decreases cs.len(),
{
    if cs.len() == 0 {
        0
    } else {
        let m = max_order(cs.drop_last());
        if cs.last().order > m {
            cs.last().order as nat
        } else {
            m
        }
    }
}

/// The insertion order a new collection gets: one past the largest in use,
/// 0 for the first collection.
pub open spec fn next_order(cs: Seq<Collection>) -> nat {
    if cs.len() == 0 {
        0
    } else {
        max_order(cs) + 1
    }
}

/// No insertion order is at the top of the `u64` range, so a next one exists.
pub open spec fn orders_below_max(cs: Seq<Collection>) -> bool {
    forall|k: int| 0 <= k < cs.len() ==> #[trigger] cs[k].order < u64::MAX
}

/// Every order is at most the largest one, which is below the top of the
/// range when all of them are.
proof fn lemma_max_order_bound(cs: Seq<Collection>)
    ensures
        forall|k: int| 0 <= k < cs.len() ==> #[trigger] cs[k].order <= max_order(cs),
        orders_below_max(cs) ==> max_order(cs) < u64::MAX,
    decreases cs.len(),
{
    if cs.len() > 0 {
        let init = cs.drop_last();
        lemma_max_order_bound(init);
        assert forall|k: int| 0 <= k < cs.len() implies #[trigger] cs[k].order <= max_order(cs) by {
            if k < init.len() {
                assert(cs[k] == init[k]);
            }
        }
        if orders_below_max(cs) {
            assert forall|k: int| 0 <= k < init.len() implies #[trigger] init[k].order < u64::MAX by {
                assert(cs[k] == init[k]);
            }
            assert(cs[cs.len() - 1].order < u64::MAX);
        }
    }
}

impl AppData {
    /// The insertion order for a collection added now: greater than every
    /// order in use.
    pub fn next_coll_order(&self) -> (r: u64)
        requires
            orders_below_max(self.collections@),
        ensures
            r == next_order(self.collections@),
            forall|k: int|
                0 <= k < self.collections@.len() ==> #[trigger] self.collections@[k].order < r,
    {
        proof {
            lemma_max_order_bound(self.collections@);
        }
        let n: usize = self.collections.len();
        if n == 0 {
            return 0;
        }
        let mut m: u64 = 0;
        let mut i: usize = 0;
        while i < n
            invariant
                n == self.collections@.len(),
                i <= n,
                m == max_order(self.collections@.take(i as int)),
            decreases n - i,
        {
            assert(self.collections@.take(i + 1).drop_last() =~= self.collections@.take(i as int));
            if self.collections[i].order > m {
                m = self.collections[i].order;
            }
            i = i + 1;
        }
        assert(self.collections@.take(n as int) =~= self.collections@);
        m + 1
    }
}

/// The number of items of `items` that belong to the collection `cid`.
pub open spec fn count_in(items: Seq<Item>, cid: Seq<char>) -> nat
    decreases items.len(),
{
    if items.len() == 0 {
        0
    } else {
        count_in(items.drop_last(), cid) + if items.last().collection_id@ == cid {
            1nat
        } else {
            0nat
        }
    }
}

/// `count_in` never exceeds the number of items.
pub proof fn lemma_count_in_bound(items: Seq<Item>, cid: Seq<char>)
    ensures
        count_in(items, cid) <= items.len(),
    decreases items.len(),
{
    if items.len() > 0 {
        lemma_count_in_bound(items.drop_last(), cid);
    }
}

/// Counts the items of `items` whose collection is `coll_id`.
pub fn count_items(items: &Vec<Item>, coll_id: &str) -> (r: usize)
    ensures
        r == count_in(items@, coll_id@),
{
    let n: usize = items.len();
    let mut count: usize = 0;
    let mut i: usize = 0;
    while i < n
        invariant
            n == items.len(),
            i <= n,
            count == count_in(items@.take(i as int), coll_id@),
            count <= i,
        decreases n - i,
    {
        assert(items@.take(i + 1).drop_last() =~= items@.take(i as int));
        if str_eq(items[i].collection_id.as_str(), coll_id) {
            count = count + 1;
        }
        i = i + 1;
    }
    assert(items@.take(n as int) =~= items@);
    count
}

/// The number of items in the collection `coll_id`.
pub fn item_count(data: &AppData, coll_id: &str) -> (r: usize)
    ensures
        r == count_in(data.items@, coll_id@),
{
    count_items(&data.items, coll_id)
}

/// Whether a mode lists its largest keys first.
pub open spec fn sorts_descending(mode: SortMode) -> bool {
    mode == SortMode::NameDesc || mode == SortMode::HighOrNew
}

/// The key a collection is sorted by under `mode`, given all items.
pub open spec fn collection_key(items: Seq<Item>, mode: SortMode) -> spec_fn(Collection) -> Key {
    |c: Collection|
        match mode {
            SortMode::Added => (c.order as int, Seq::<char>::empty()),
            SortMode::NameAsc | SortMode::NameDesc => (0int, lowercase(c.name@)),
            SortMode::LowOrOld | SortMode::HighOrNew => (
                count_in(items, c.id@) as int,
                Seq::<char>::empty(),
            ),
        }
}

/// The executable key of one collection.
fn collection_sort_key(items: &Vec<Item>, c: &Collection, mode: SortMode) -> (k: SortKey)
    ensures
        k@ == (collection_key(items@, mode))(*c),
{
    match mode {
        SortMode::Added => SortKey { rank: c.order, text: String::new() },
        SortMode::NameAsc | SortMode::NameDesc => SortKey {
            rank: 0,
            text: to_lowercase(c.name.as_str()),
        },
        SortMode::LowOrOld | SortMode::HighOrNew => {
            let n: usize = count_items(items, c.id.as_str());
            SortKey { rank: n as u64, text: String::new() }
        },
    }
}

/// Reorders the collections by `mode`, stably, leaving items and templates as
/// they are. `Added` orders by insertion order, the name modes by lowercase
/// name, and the count modes by how many items each collection holds.
pub fn sort_collections(data: &mut AppData, mode: SortMode)
    ensures
        final(data).items == old(data).items,
        final(data).templates == old(data).templates,
        is_stable_sort(
            final(data).collections@,
            old(data).collections@,
            collection_key(old(data).items@, mode),
            sorts_descending(mode),
        ),
{
    let n: usize = data.collections.len();
    let mut keys: Vec<SortKey> = Vec::new();
    let mut i: usize = 0;
    while i < n
        invariant
            n == data.collections.len(),
            i <= n,
            keys.len() == i,
            forall|j: int|
                0 <= j < i ==> #[trigger] keys[j]@ == (collection_key(data.items@, mode))(
                    data.collections[j],
                ),
        decreases n - i,
    {
        let k = collection_sort_key(&data.items, &data.collections[i], mode);
        keys.push(k);
        i = i + 1;
    }
    let mut cols: Vec<Collection> = Vec::new();
    std::mem::swap(&mut cols, &mut data.collections);
    let descending: bool = mode == SortMode::NameDesc || mode == SortMode::HighOrNew;
    let sorted = stable_sort(cols, keys, descending, Ghost(collection_key(data.items@, mode)));
    data.collections = sorted;
}

} // verus!

verus! {

/// A stored photo reference after migration: an absolute or nested path is
/// reduced to its file name; a reference without a file name is kept.
pub open spec fn migrated_photo(p: Seq<char>) -> Seq<char> {
    match file_name(p) {
        Some(n) => n,
        None => p,
    }
}

/// Two collections share an insertion order.
pub open spec fn has_duplicate_orders(cs: Seq<Collection>) -> bool {
    exists|i: int, j: int| 0 <= i < j < cs.len() && #[trigger] cs[i].order == #[trigger] cs[j].order
}

/// Every collection has insertion order 0.
pub open spec fn all_orders_zero(cs: Seq<Collection>) -> bool {
    forall|i: int| 0 <= i < cs.len() ==> #[trigger] cs[i].order == 0
}

/// Insertion orders must be reassigned by position: they repeat among
/// several collections, or they are all zero.
pub open spec fn needs_renumbering(cs: Seq<Collection>) -> bool {
    (has_duplicate_orders(cs) && cs.len() > 1) || (all_orders_zero(cs) && cs.len() > 0)
}

/// The insertion order of collection `i` after normalization.
pub open spec fn normalized_order(cs: Seq<Collection>, i: int) -> int {
    if needs_renumbering(cs) {
        i
    } else {
        cs[i].order as int
    }
}

/// Some stored photo reference changes under migration.
pub open spec fn photos_need_migration(items: Seq<Item>) -> bool {
    exists|i: int, j: int|
        0 <= i < items.len() && 0 <= j < items[i].photos@.len()
            && migrated_photo(#[trigger] items[i].photos@[j]@) != items[i].photos@[j]@
}

/// Some collection's insertion order changes under normalization.
pub open spec fn orders_need_migration(cs: Seq<Collection>) -> bool {
    needs_renumbering(cs) && exists|i: int| 0 <= i < cs.len() && #[trigger] cs[i].order != i
}

/// Loading `d` changes something that should then be written back.
pub open spec fn needs_migration(d: AppData) -> bool {
    photos_need_migration(d.items@) || orders_need_migration(d.collections@)
}

/// `new` is `old` with photo references migrated and insertion orders
/// normalized; nothing else differs.
pub open spec fn is_normalization(old: AppData, new: AppData) -> bool {
    &&& new.templates == old.templates
    &&& new.items@.len() == old.items@.len()
    &&& forall|i: int| 0 <= i < old.items@.len() ==> {
        let a = #[trigger] old.items@[i];
        let b = new.items@[i];
        &&& b.id == a.id
        &&& b.collection_id == a.collection_id
        &&& b.name == a.name
        &&& b.short_desc == a.short_desc
        &&& b.acquired_date == a.acquired_date
        &&& b.custom_fields == a.custom_fields
        &&& b.photos@.len() == a.photos@.len()
        &&& forall|j: int|
            0 <= j < a.photos@.len() ==> #[trigger] b.photos@[j]@ == migrated_photo(a.photos@[j]@)
    }
    &&& new.collections@.len() == old.collections@.len()
    &&& forall|i: int| 0 <= i < old.collections@.len() ==> {
        let a = #[trigger] old.collections@[i];
        let b = new.collections@[i];
        &&& b.id == a.id
        &&& b.name == a.name
        &&& b.icon == a.icon
        &&& b.order == normalized_order(old.collections@, i)
    }
}

/// Migrates one item's photo references; also tells whether any changed.
fn migrate_photos(photos: &Vec<String>) -> (r: (Vec<String>, bool))
    ensures
        r.0@.len() == photos@.len(),
        forall|j: int| 0 <= j < photos@.len() ==> #[trigger] r.0@[j]@ == migrated_photo(photos@[j]@),
        r.1 == exists|j: int|
            0 <= j < photos@.len() && migrated_photo(#[trigger] photos@[j]@) != photos@[j]@,
{
    let n: usize = photos.len();
    let mut out: Vec<String> = Vec::new();
    let mut changed: bool = false;
    let mut j: usize = 0;
    while j < n
        invariant
            n == photos@.len(),
            j <= n,
            out@.len() == j,
            forall|k: int| 0 <= k < j ==> #[trigger] out@[k]@ == migrated_photo(photos@[k]@),
            changed == exists|k: int|
                0 <= k < j && migrated_photo(#[trigger] photos@[k]@) != photos@[k]@,
        decreases n - j,
    {
        let p = &photos[j];
        match path_file_name(p.as_str()) {
            Some(name) => {
                if !str_eq(name.as_str(), p.as_str()) {
                    changed = true;
                }
                out.push(name);
            },
            None => {
                out.push(p.clone());
            },
        }
        j = j + 1;
    }
    (out, changed)
}

/// Whether two collections share an insertion order.
fn find_duplicate_order(cs: &Vec<Collection>) -> (r: bool)
    ensures
        r == has_duplicate_orders(cs@),
{
    let n: usize = cs.len();
    let mut i: usize = 0;
    while i < n
        invariant
            n == cs@.len(),
            i <= n,
            forall|a: int, b: int| 0 <= a < b < n && a < i ==> #[trigger] cs@[a].order != #[trigger] cs@[b].order,
        decreases n - i,
    {
        let mut j: usize = i + 1;
        while j < n
            invariant
                n == cs@.len(),
                i < n,
                i + 1 <= j <= n,
                forall|a: int, b: int| 0 <= a < b < n && a < i ==> #[trigger] cs@[a].order != #[trigger] cs@[b].order,
                forall|b: int| i < b < j ==> cs@[i as int].order != #[trigger] cs@[b].order,
            decreases n - j,
        {
            if cs[i].order == cs[j].order {
                assert(cs@[i as int].order == cs@[j as int].order);
                return true;
            }
            j = j + 1;
        }
        i = i + 1;
    }
    false
}

/// Whether every collection has insertion order 0.
fn all_zero_orders(cs: &Vec<Collection>) -> (r: bool)
    ensures
        r == all_orders_zero(cs@),
{
    let n: usize = cs.len();
    let mut i: usize = 0;
    while i < n
        invariant
            n == cs@.len(),
            i <= n,
            forall|k: int| 0 <= k < i ==> #[trigger] cs@[k].order == 0,
        decreases n - i,
    {
        if cs[i].order != 0 {
            return false;
        }
        i = i + 1;
    }
    true
}

/// Brings freshly loaded data up to the current layout: stored photo
/// references become bare file names, and insertion orders that repeat (or
/// are all zero) are reassigned by position so that the "Date added" sort
/// keeps the existing order. Returns whether anything changed, that is,
/// whether the data should be written back.
pub fn normalize_loaded_data(data: &mut AppData) -> (migrated: bool)
    ensures
        is_normalization(*old(data), *final(data)),
        migrated == needs_migration(*old(data)),
{
    let ghost old_data = *data;
    // photo references
    let n: usize = data.items.len();
    let mut items: Vec<Item> = Vec::new();
    std::mem::swap(&mut items, &mut data.items);
    let mut photos_changed: bool = false;
    let mut i: usize = 0;
    while i < n
        invariant
            n == old_data.items@.len(),
            i <= n,
            items@ == old_data.items@.skip(i as int),
            data.collections == old_data.collections,
            data.templates == old_data.templates,
            data.items@.len() == i,
            forall|k: int| 0 <= k < i ==> {
                let a = #[trigger] old_data.items@[k];
                let b = data.items@[k];
                &&& b.id == a.id
                &&& b.collection_id == a.collection_id
                &&& b.name == a.name
                &&& b.short_desc == a.short_desc
                &&& b.acquired_date == a.acquired_date
                &&& b.custom_fields == a.custom_fields
                &&& b.photos@.len() == a.photos@.len()
                &&& forall|j: int|
                    0 <= j < a.photos@.len() ==> #[trigger] b.photos@[j]@ == migrated_photo(
                        a.photos@[j]@,
                    )
            },
            photos_changed == exists|k: int, j: int|
                0 <= k < i && 0 <= j < old_data.items@[k].photos@.len() && migrated_photo(
                    #[trigger] old_data.items@[k].photos@[j]@,
                ) != old_data.items@[k].photos@[j]@,
        decreases n - i,
    {
        let mut it = items.remove(0);
        assert(it == old_data.items@[i as int]);
        let (new_photos, changed) = migrate_photos(&it.photos);
        it.photos = new_photos;
        if changed {
            photos_changed = true;
        }
        data.items.push(it);
        assert(items@ =~= old_data.items@.skip(i + 1));
        i = i + 1;
    }
    // insertion orders
    let m: usize = data.collections.len();
    let renumber: bool = (find_duplicate_order(&data.collections) && m > 1) || (all_zero_orders(
        &data.collections,
    ) && m > 0);
    let mut orders_changed: bool = false;
    let ghost items_after = data.items;
    if renumber {
        let mut cols: Vec<Collection> = Vec::new();
        std::mem::swap(&mut cols, &mut data.collections);
        let mut k: usize = 0;
        while k < m
            invariant
                m == old_data.collections@.len(),
                k <= m,
                cols@ == old_data.collections@.skip(k as int),
                data.collections@.len() == k,
                data.items == items_after,
                data.templates == old_data.templates,
                needs_renumbering(old_data.collections@),
                forall|q: int| 0 <= q < k ==> {
                    let a = #[trigger] old_data.collections@[q];
                    let b = data.collections@[q];
                    &&& b.id == a.id
                    &&& b.name == a.name
                    &&& b.icon == a.icon
                    &&& b.order == normalized_order(old_data.collections@, q)
                },
                orders_changed == exists|q: int| 0 <= q < k && #[trigger] old_data.collections@[q].order != q,
            decreases m - k,
        {
            let mut c = cols.remove(0);
            assert(c == old_data.collections@[k as int]);
            let ord: u64 = k as u64;
            if c.order != ord {
                c.order = ord;
                orders_changed = true;
            }
            data.collections.push(c);
            assert(cols@ =~= old_data.collections@.skip(k + 1));
            k = k + 1;
        }
    }
    proof {
        if !renumber {
            assert(!orders_need_migration(old_data.collections@));
            let oc = old_data.collections@;
            assert forall|q: int| 0 <= q < oc.len() implies #[trigger] oc[q].order
                == normalized_order(oc, q) by {}
        }
    }
    photos_changed || orders_changed
}

/// Normalizing is idempotent: normalized data needs no further migration, and
/// normalizing it again leaves it as it is.
pub proof fn lemma_normalization_is_stable(old: AppData, new: AppData)
    requires
        is_normalization(old, new),
    ensures
        !needs_migration(new),
        is_normalization(new, new),
{
    assert forall|i: int, j: int|
        0 <= i < new.items@.len() && 0 <= j < new.items@[i].photos@.len() implies migrated_photo(
        #[trigger] new.items@[i].photos@[j]@,
    ) == new.items@[i].photos@[j]@ by {
        let a = old.items@[i];
        let p = a.photos@[j]@;
        lemma_file_name_idempotent(p);
    }
    let oc = old.collections@;
    let nc = new.collections@;
    if needs_renumbering(oc) {
        // orders are now the positions 0..n-1
        assert forall|i: int| 0 <= i < nc.len() implies #[trigger] nc[i].order == i by {
            let c = oc[i];
            assert(nc[i].order == normalized_order(oc, i));
        }
        if has_duplicate_orders(nc) {
            let (a, b) = choose|a: int, b: int|
                0 <= a < b < nc.len() && #[trigger] nc[a].order == #[trigger] nc[b].order;
            assert(nc[a].order == a && nc[b].order == b);
        }
    } else {
        assert forall|i: int| 0 <= i < nc.len() implies #[trigger] nc[i].order == oc[i].order by {
            let c = oc[i];
            assert(nc[i].order == normalized_order(oc, i));
        }
        if has_duplicate_orders(nc) {
            let (a, b) = choose|a: int, b: int|
                0 <= a < b < nc.len() && #[trigger] nc[a].order == #[trigger] nc[b].order;
            assert(oc[a].order == oc[b].order);
        }
        if all_orders_zero(nc) {
            assert forall|i: int| 0 <= i < oc.len() implies #[trigger] oc[i].order == 0 by {
                assert(nc[i].order == oc[i].order);
            }
        }
    }
    assert(!needs_renumbering(nc) || forall|i: int| 0 <= i < nc.len() ==> #[trigger] nc[i].order == i);
    assert forall|i: int| 0 <= i < nc.len() implies #[trigger] nc[i].order == normalized_order(nc, i) by {
    }
}

/// Sorting the collections twice by the same mode gives the order that
/// sorting once gave (the second sort leaves the items, and so the keys, as
/// they were).
pub proof fn lemma_sort_collections_idempotent(
    original: Seq<Collection>,
    once: Seq<Collection>,
    twice: Seq<Collection>,
    items: Seq<Item>,
    mode: SortMode,
)
    requires
        is_stable_sort(once, original, collection_key(items, mode), sorts_descending(mode)),
        is_stable_sort(twice, once, collection_key(items, mode), sorts_descending(mode)),
    ensures
        twice == once,
{
    lemma_stable_sort_idempotent(
        original,
        once,
        twice,
        collection_key(items, mode),
        sorts_descending(mode),
    );
}

/// Sorting orders the collections by what the mode names, and keeps all of
/// them: by insertion order under `Added`; by lowercase name, A to Z under
/// `NameAsc` and Z to A under `NameDesc`, with no other criterion; by the
/// number of items, fewest first under `LowOrOld` and most first under
/// `HighOrNew`.
pub proof fn lemma_sort_collections_orders_by_mode(
    original: Seq<Collection>,
    sorted: Seq<Collection>,
    items: Seq<Item>,
    mode: SortMode,
)
    requires
        is_stable_sort(sorted, original, collection_key(items, mode), sorts_descending(mode)),
    ensures
        sorted.len() == original.len(),
        forall|i: int, j: int|
            0 <= i < j < sorted.len() ==> {
                let (a, b) = (#[trigger] sorted[i], #[trigger] sorted[j]);
                match mode {
                    SortMode::Added => a.order <= b.order,
                    SortMode::NameAsc => !text_lt(lowercase(b.name@), lowercase(a.name@)),
                    SortMode::NameDesc => !text_lt(lowercase(a.name@), lowercase(b.name@)),
                    SortMode::LowOrOld => count_in(items, a.id@) <= count_in(items, b.id@),
                    SortMode::HighOrNew => count_in(items, a.id@) >= count_in(items, b.id@),
                }
            },
{
    let key = collection_key(items, mode);
    let d = sorts_descending(mode);
    let perm = choose|perm: Seq<int>| stable_sort_witness(sorted, original, key, d, perm);
    let ks = sorted.map_values(key);
    assert forall|i: int, j: int| 0 <= i < j < sorted.len() implies {
        let (a, b) = (#[trigger] sorted[i], #[trigger] sorted[j]);
        match mode {
            SortMode::Added => a.order <= b.order,
            SortMode::NameAsc => !text_lt(lowercase(b.name@), lowercase(a.name@)),
            SortMode::NameDesc => !text_lt(lowercase(a.name@), lowercase(b.name@)),
            SortMode::LowOrOld => count_in(items, a.id@) <= count_in(items, b.id@),
            SortMode::HighOrNew => count_in(items, a.id@) >= count_in(items, b.id@),
        }
    } by {
        assert(!precedes(d, ks[j], ks[i]));
        assert(ks[i] == key(sorted[i]));
        assert(ks[j] == key(sorted[j]));
    }
}

/// Migration keeps photos where they are found: a stored reference that is
/// looked up in the photos directory resolves to the same file after it is
/// reduced to its file name, and keeps the same cached thumbnail.
pub proof fn lemma_migration_keeps_locations(
    p: Seq<char>,
    photos_dir: Seq<char>,
    thumbs_dir: Seq<char>,
    exists: bool,
    exists_after: bool,
)
    requires
        p.len() > 0,
        !(is_absolute(p) && exists),
        file_name(p) is Some,
    ensures
        resolved_photo(migrated_photo(p), photos_dir, exists_after) == resolved_photo(
            p,
            photos_dir,
            exists,
        ),
        thumb_name(migrated_photo(p)) == thumb_name(p),
{
    lemma_file_name_plain(p);
    lemma_file_name_idempotent(p);
    let n = migrated_photo(p);
    assert(!is_absolute(n)) by {
        if is_absolute(n) {
            assert(n.contains('/'));
        }
    }
}

/// What reading the data file produced.
pub enum LoadedFile {
    /// There is no data file yet: a first run.
    Absent,
    /// The file exists but is not readable catalogue data (unreadable, not
    /// UTF-8 text, or not parsable); it is kept aside, never written over.
    Corrupt,
    /// The file parsed.
    Parsed(AppData),
}

/// What to do with a loaded data file.
pub struct LoadPlan {
    /// The data to start from.
    pub data: AppData,
    /// Whether the data must be written back (a migration happened).
    pub write_back: bool,
    /// Whether the unreadable original must be preserved under another name.
    pub preserve_original: bool,
}

/// The empty catalogue.
pub open spec fn is_empty_data(d: AppData) -> bool {
    d.collections@.len() == 0 && d.items@.len() == 0 && d.templates@.len() == 0
}

/// Decides how loading proceeds. Absent data starts empty; corrupt data
/// starts empty, is preserved, and is never written over; parsed data is
/// normalized and written back only when normalization changed it.
pub fn plan_load(file: LoadedFile) -> (r: LoadPlan)
    ensures
        match file {
            LoadedFile::Absent => is_empty_data(r.data) && !r.write_back && !r.preserve_original,
            LoadedFile::Corrupt => is_empty_data(r.data) && !r.write_back && r.preserve_original,
            LoadedFile::Parsed(d) => is_normalization(d, r.data) && r.write_back
                == needs_migration(d) && !r.preserve_original,
        },
{
    match file {
        LoadedFile::Absent => LoadPlan { data: AppData::default(), write_back: false, preserve_original: false },
        LoadedFile::Corrupt => LoadPlan { data: AppData::default(), write_back: false, preserve_original: true },
        LoadedFile::Parsed(d) => {
            let mut data = d;
            let migrated = normalize_loaded_data(&mut data);
            LoadPlan { data, write_back: migrated, preserve_original: false }
        },
    }
}

} // verus!
