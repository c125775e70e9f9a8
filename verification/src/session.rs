//! The catalogue as the window holds it: the data, the collection and item
//! lists with their check marks and open rows, and the window's own state;
//! and the steps that change several of these at once (clicking a row,
//! importing, deleting and adding collections, accepting the name dialog).
use vstd::prelude::*;
use crate::commands::{
    collections_not_among, delete_collections, flush_edits, is_collection_rename, is_flush,
    is_item_rename, is_new_collection, is_template_save, items_outside_all, new_collection,
    photos_of_collections, rename_collection, rename_item, save_template, saves_template,
};
use crate::edits::{
    all_photos, delete_collection, fresh_items, is_import_merge, items_outside,
    lemma_import_takes_collections_whole, lemma_import_takes_items_whole, merge_imported, photos_in,
};
use crate::model::{AppData, Collection, CustomField, orders_below_max};
use crate::selection::{
    Selection, among, checked_ids, checked_row_ids, clear_marks, click, clicked, is_among,
};
use crate::text::{str_eq, trim, trimmed};
use crate::window::{NamePurpose, Overlay, Status, Window};

verus! {

/// The texts of the detail editors, as they are to be written back into the
/// open item: name, description, the acquired date assembled from the date
/// editors, and one (id, label, value) per custom field editor.
pub struct Editors {
    pub name: String,
    pub desc: String,
    pub date: String,
    pub fields: Vec<CustomField>,
}

/// The catalogue with the state of its window.
pub struct Session {
    pub data: AppData,
    pub window: Window,
    /// The collection list: one check mark per collection, the anchor, and
    /// the open collection.
    pub collections: Selection,
    /// The item list as shown: check marks, anchor, and the open item.
    pub items: Selection,
}

/// What the caller does after a step of the session.
#[derive(Debug, Clone, Copy, PartialEq, Eq, Structural)]
pub struct SessionAction {
    /// Save the catalogue.
    pub save_data: bool,
    /// Reload the detail editors from the open item.
    pub reload_editors: bool,
    /// Reset the item check marks, one unchecked mark per item now shown.
    pub clear_item_marks: bool,
}

/// The ids of the collections, in order.
pub open spec fn ids_of(cs: Seq<Collection>) -> Seq<String> {
    Seq::new(cs.len(), |k: int| cs[k].id)
}

/// `a` with no row open.
pub open spec fn deselected(a: Selection) -> Selection {
    Selection { selected: None, ..a }
}

/// Whether the row with the id `id` is the open one.
pub open spec fn opens(a: Selection, id: Seq<char>) -> bool {
    a.selected matches Some(c) && c@ == id
}

/// `b` is `a` with its check marks reset for `n` rows: none checked.
pub open spec fn marks_cleared(a: Selection, b: Selection, n: nat) -> bool {
    &&& b.checked@ == Seq::new(n, |i: int| false)
    &&& !b.multi
    &&& b.anchor == a.anchor
    &&& b.selected == a.selected
}

/// What the data becomes when pending edits are written back before a
/// step: in edit mode, the editors go into the open item; otherwise the
/// data is as it was.
pub open spec fn flushed_before(s: Session, ed: Editors, data: AppData) -> bool {
    if s.window.editing && s.items.selected is Some {
        is_flush(s.data, s.items.selected->0@, ed.name@, ed.desc@, ed.date, ed.fields@, data)
    } else {
        data == s.data
    }
}

/// In edit mode, writes the editors back into the open item. Returns
/// whether the catalogue is to be saved (whenever in edit mode).
fn flush_pending(s: &mut Session, ed: &Editors) -> (r: bool)
    ensures
        flushed_before(*old(s), *ed, final(s).data),
        final(s).window == old(s).window,
        final(s).collections == old(s).collections,
        final(s).items == old(s).items,
        r == old(s).window.editing,
{
    if !s.window.editing {
        return false;
    }
    match &s.items.selected {
        Some(id) => {
            let id = id.clone();
            flush_edits(
                &mut s.data,
                id.as_str(),
                ed.name.as_str(),
                ed.desc.as_str(),
                ed.date.clone(),
                &ed.fields,
            );
        },
        None => {},
    }
    true
}

/// The ids of the collections, in order.
fn collection_ids(cs: &Vec<Collection>) -> (r: Vec<String>)
    ensures
        r@ == ids_of(cs@),
{
    let n: usize = cs.len();
    let mut out: Vec<String> = Vec::new();
    let mut i: usize = 0;
    while i < n
        invariant
            n == cs@.len(),
            i <= n,
            out@ == ids_of(cs@).take(i as int),
        decreases n - i,
    {
        out.push(cs[i].id.clone());
        assert(out@ =~= ids_of(cs@).take(i + 1));
        i = i + 1;
    }
    assert(out@ =~= ids_of(cs@));
    out
}

/// `n` marks, all set.
fn all_shown(n: usize) -> (r: Vec<bool>)
    ensures
        r@ == Seq::new(n as nat, |k: int| true),
{
    let mut out: Vec<bool> = Vec::new();
    let mut i: usize = 0;
    while i < n
        invariant
            i <= n,
            out@ == Seq::new(i as nat, |k: int| true),
        decreases n - i,
    {
        out.push(true);
        i = i + 1;
        assert(out@ =~= Seq::new(i as nat, |k: int| true));
    }
    out
}

/// `b` is `a` after a click on collection row `idx` (see
/// `select_collection`), `act` being what the caller does next.
pub open spec fn selects_collection(
    a: Session,
    ed: Editors,
    visible: Seq<bool>,
    idx: int,
    ctrl: bool,
    shift: bool,
    b: Session,
    act: SessionAction,
) -> bool {
    let ids = ids_of(a.data.collections@);
    let plain = !ctrl && !shift && 0 <= idx < ids.len();
    &&& flushed_before(a, ed, b.data)
    &&& clicked(a.collections, b.collections, ids, visible, idx, ctrl, shift, false)
    &&& b.items == (if plain {
        deselected(a.items)
    } else {
        a.items
    })
    &&& b.window == Window { editing: a.window.editing && !plain, ..a.window }
    &&& act == SessionAction {
        save_data: a.window.editing,
        reload_editors: plain,
        clear_item_marks: plain,
    }
}

/// A plain click on a collection row opens that collection, or closes it
/// when it was the open one; either way the open item closes and edit mode
/// ends, after the pending edits are saved. A Ctrl or Shift click changes
/// neither the open collection, the open item nor edit mode. Pending edits
/// are saved exactly when in edit mode.
pub proof fn lemma_collection_click(
    a: Session,
    ed: Editors,
    visible: Seq<bool>,
    idx: int,
    ctrl: bool,
    shift: bool,
    b: Session,
    act: SessionAction,
)
    requires
        0 <= idx,
        visible.len() == a.data.collections@.len(),
        selects_collection(a, ed, visible, idx, ctrl, shift, b, act),
    ensures
        act.save_data == a.window.editing,
        !ctrl && !shift && idx < a.data.collections@.len() ==> {
            let id = a.data.collections@[idx].id;
            &&& b.collections.selected == (if a.collections.selected matches Some(c) && c@ == id@ {
                None
            } else {
                Some(id)
            })
            &&& b.items.selected is None
            &&& !b.window.editing
            &&& act.reload_editors
        },
        (ctrl || shift || idx >= a.data.collections@.len()) ==> b.collections.selected
            == a.collections.selected && b.items.selected == a.items.selected && b.window.editing
            == a.window.editing && !act.reload_editors,
{
}

/// A click on collection row `idx` (with Ctrl, with Shift, or plain);
/// `visible` says which rows the collection search shows. Pending edits are
/// written back first. The collection list changes as `click` says. A plain
/// click on a row also closes the open item and leaves edit mode.
pub fn select_collection(
    s: &mut Session,
    ed: &Editors,
    visible: &Vec<bool>,
    idx: usize,
    ctrl: bool,
    shift: bool,
) -> (act: SessionAction)
    requires
        visible@.len() == old(s).data.collections@.len(),
    ensures
        selects_collection(*old(s), *ed, visible@, idx as int, ctrl, shift, *final(s), act),
{
    let save = flush_pending(s, ed);
    let ids = collection_ids(&s.data.collections);
    assert(ids@ == ids_of(old(s).data.collections@)) by {
        assert(s.data.collections == old(s).data.collections);
    }
    click(&mut s.collections, &ids, visible, idx, ctrl, shift, false);
    let plain = !ctrl && !shift && idx < ids.len();
    if plain {
        s.items.selected = None;
        s.window.editing = false;
    }
    SessionAction { save_data: save, reload_editors: plain, clear_item_marks: plain }
}

/// `b` is `a` after a click on item row `idx` of the items shown, whose ids
/// are `shown` (see `select_item`), `act` being what the caller does next.
pub open spec fn selects_item(
    a: Session,
    ed: Editors,
    shown: Seq<String>,
    idx: int,
    ctrl: bool,
    shift: bool,
    b: Session,
    act: SessionAction,
) -> bool {
    let on_row = 0 <= idx < shown.len();
    &&& flushed_before(a, ed, b.data)
    &&& clicked(a.items, b.items, shown, Seq::new(shown.len(), |k: int| true), idx, ctrl, shift, true)
    &&& b.collections == a.collections
    &&& b.window == Window { editing: a.window.editing && !on_row, ..a.window }
    &&& act == SessionAction {
        save_data: a.window.editing,
        reload_editors: on_row,
        clear_item_marks: false,
    }
}

/// Any click on an item row ends edit mode, after saving the pending edits;
/// a plain click opens the item, or closes it when it was the open one, and
/// a Ctrl or Shift click leaves no item open. A click past the rows changes
/// nothing but saves the pending edits. The open collection never changes.
pub proof fn lemma_item_click(
    a: Session,
    ed: Editors,
    shown: Seq<String>,
    idx: int,
    ctrl: bool,
    shift: bool,
    b: Session,
    act: SessionAction,
)
    requires
        0 <= idx,
        selects_item(a, ed, shown, idx, ctrl, shift, b, act),
    ensures
        act.save_data == a.window.editing,
        b.collections.selected == a.collections.selected,
        idx < shown.len() ==> !b.window.editing && act.reload_editors,
        idx < shown.len() && !ctrl && !shift ==> b.items.selected == (if a.items.selected matches Some(
            c,
        ) && c@ == shown[idx]@ {
            None
        } else {
            Some(shown[idx])
        }),
        idx < shown.len() && (ctrl || shift) ==> b.items.selected is None,
        idx >= shown.len() ==> b.items.selected == a.items.selected && b.window.editing
            == a.window.editing && !act.reload_editors,
{
}

/// A click on item row `idx` (with Ctrl, with Shift, or plain) of the items
/// shown, whose ids are `shown`. Pending edits are written back first. The
/// item list changes as `click` says (a marking click also closes the open
/// item); any click on a row leaves edit mode.
pub fn select_item(
    s: &mut Session,
    ed: &Editors,
    shown: &Vec<String>,
    idx: usize,
    ctrl: bool,
    shift: bool,
) -> (act: SessionAction)
    ensures
        selects_item(*old(s), *ed, shown@, idx as int, ctrl, shift, *final(s), act),
{
    let save = flush_pending(s, ed);
    let visible = all_shown(shown.len());
    click(&mut s.items, shown, &visible, idx, ctrl, shift, true);
    let on_row = idx < shown.len();
    if on_row {
        s.window.editing = false;
    }
    SessionAction { save_data: save, reload_editors: on_row, clear_item_marks: false }
}

/// `b` is `a` after importing `imported`, `photos` being the photo
/// references of the items taken in and `act` what the caller does next
/// (see `import`).
pub open spec fn imports(
    a: Session,
    imported: AppData,
    b: Session,
    photos: Seq<String>,
    act: SessionAction,
) -> bool {
    &&& is_import_merge(a.data, imported, b.data)
    &&& photos == all_photos(fresh_items(imported.items@, a.data.items@))
    &&& marks_cleared(deselected(a.collections), b.collections, b.data.collections@.len())
    &&& b.items == deselected(a.items)
    &&& b.window == Window { status: Status::Imported, ..a.window }
    &&& act == SessionAction { save_data: true, reload_editors: true, clear_item_marks: true }
}

/// After an import no collection and no item is open, no collection row is
/// checked (one mark per collection), the status says `Imported`, and the
/// catalogue is saved and the editors reloaded; what was in the catalogue
/// before stays first and unchanged, and templates are not imported.
pub proof fn lemma_import_closes_open_rows(
    a: Session,
    imported: AppData,
    b: Session,
    photos: Seq<String>,
    act: SessionAction,
)
    requires
        imports(a, imported, b, photos, act),
    ensures
        b.collections.selected is None && b.items.selected is None,
        b.collections.checked@.len() == b.data.collections@.len(),
        forall|k: int| 0 <= k < b.collections.checked@.len() ==> !#[trigger] b.collections.checked@[k],
        !b.collections.multi,
        b.window.status == Status::Imported,
        b.window.editing == a.window.editing && b.window.overlay == a.window.overlay,
        act.save_data && act.reload_editors && act.clear_item_marks,
        b.data.collections@.take(a.data.collections@.len() as int) == a.data.collections@,
        b.data.items@.take(a.data.items@.len() as int) == a.data.items@,
        b.data.templates == a.data.templates,
{
    lemma_import_takes_collections_whole(a.data, imported, b.data);
    lemma_import_takes_items_whole(a.data, imported, b.data);
}

/// Merges an imported catalogue (see `merge_imported`), then closes the
/// open collection and item, resets the collection check marks and says
/// `Imported`. Returns the photo references of the items taken in.
pub fn import(s: &mut Session, imported: AppData) -> (r: (Vec<String>, SessionAction))
    ensures
        imports(*old(s), imported, *final(s), r.0@, r.1),
{
    let photos = merge_imported(&mut s.data, imported);
    s.collections.selected = None;
    s.items.selected = None;
    let n: usize = s.data.collections.len();
    clear_marks(&mut s.collections, n);
    s.window.status = Status::Imported;
    (photos, SessionAction { save_data: true, reload_editors: true, clear_item_marks: true })
}

/// `b` is `a` after deleting collection `idx` with its items, `photos`
/// being the photos to remove and `act` what the caller does next (see
/// `delete_collection_at`).
pub open spec fn deletes_collection_at(
    a: Session,
    idx: int,
    b: Session,
    photos: Seq<String>,
    act: SessionAction,
) -> bool {
    &&& (b.data.templates == a.data.templates)
    &&& (idx < a.data.collections@.len() ==> {
            let cid = a.data.collections@[idx].id@;
            &&& b.data.collections@ == a.data.collections@.remove(idx)
            &&& b.data.items@ == items_outside(a.data.items@, cid)
            &&& photos == photos_in(a.data.items@, cid)
        })
    &&& (idx >= a.data.collections@.len() ==> b.data == a.data && photos.len() == 0)
    &&& (({
            let hit = idx < a.data.collections@.len() && opens(
                a.collections,
                a.data.collections@[idx].id@,
            );
            &&& marks_cleared(
                if hit {
                    deselected(a.collections)
                } else {
                    a.collections
                },
                b.collections,
                b.data.collections@.len(),
            )
            &&& b.items == (if hit {
                deselected(a.items)
            } else {
                a.items
            })
            &&& b.window == Window {
                overlay: Overlay::Closed,
                editing: a.window.editing && !hit,
                ..a.window
            }
            &&& act == SessionAction {
                save_data: idx < a.data.collections@.len(),
                reload_editors: hit,
                clear_item_marks: true,
            }
        }))
}

/// Deleting a collection closes the open collection and item, and ends edit
/// mode, exactly when the deleted collection is the open one: deleting any
/// other collection, or none (an index past the end), leaves the open
/// collection, the open item and edit mode as they were.
pub proof fn lemma_delete_closes_only_the_deleted(
    a: Session,
    idx: int,
    b: Session,
    photos: Seq<String>,
    act: SessionAction,
)
    requires
        0 <= idx,
        deletes_collection_at(a, idx, b, photos, act),
    ensures
        ({
            let deleted_open = idx < a.data.collections@.len() && (a.collections.selected matches Some(
                c,
            ) && c@ == a.data.collections@[idx].id@);
            &&& deleted_open ==> b.collections.selected is None && b.items.selected is None
                && !b.window.editing && act.reload_editors
            &&& !deleted_open ==> b.collections.selected == a.collections.selected
                && b.items.selected == a.items.selected && b.window.editing == a.window.editing
                && !act.reload_editors
        }),
{
}

/// Deletes collection `idx` with its items (see `delete_collection`). When
/// it was the open collection, the open collection and item close and edit
/// mode ends. In any case the dialog closes and the check marks reset.
/// Returns the photos of the deleted items, whose files are to be removed.
pub fn delete_collection_at(s: &mut Session, idx: usize) -> (r: (Vec<String>, SessionAction))
    ensures
        deletes_collection_at(*old(s), idx as int, *final(s), r.0@, r.1),
{
    let n: usize = s.data.collections.len();
    let hit = if idx < n {
        match &s.collections.selected {
            Some(c) => str_eq(c.as_str(), s.data.collections[idx].id.as_str()),
            None => false,
        }
    } else {
        false
    };
    let photos = delete_collection(&mut s.data, idx);
    if hit {
        s.collections.selected = None;
        s.items.selected = None;
        s.window.editing = false;
    }
    let m: usize = s.data.collections.len();
    clear_marks(&mut s.collections, m);
    s.window.overlay = Overlay::Closed;
    (photos, SessionAction { save_data: idx < n, reload_editors: hit, clear_item_marks: true })
}

/// `b` is `a` after deleting the checked collections with their items,
/// `photos` being the photos to remove and `act` what the caller does next
/// (see `delete_checked_collections`).
pub open spec fn deletes_checked_collections(
    a: Session,
    b: Session,
    photos: Seq<String>,
    act: SessionAction,
) -> bool {
    let ids = checked_ids(ids_of(a.data.collections@), a.collections.checked@);
    let hit = a.collections.selected matches Some(c) && among(ids, c@);
    &&& b.data.templates == a.data.templates
    &&& b.data.collections@ == collections_not_among(a.data.collections@, ids)
    &&& b.data.items@ == items_outside_all(a.data.items@, ids)
    &&& photos == photos_of_collections(a.data.items@, ids)
    &&& marks_cleared(
        if hit {
            deselected(a.collections)
        } else {
            a.collections
        },
        b.collections,
        b.data.collections@.len(),
    )
    &&& b.items == (if hit {
        deselected(a.items)
    } else {
        a.items
    })
    &&& b.window == Window { overlay: Overlay::Closed, ..a.window }
    &&& act == SessionAction { save_data: true, reload_editors: hit, clear_item_marks: true }
}

/// Where a checked id comes from among the rows.
proof fn checked_source(ids: Seq<String>, c: Seq<bool>, q: int) -> (k: int)
    requires
        0 <= q < checked_ids(ids, c).len(),
    ensures
        0 <= k < ids.len() && k < c.len() && c[k],
        ids[k] == checked_ids(ids, c)[q],
    decreases ids.len(),
{
    let init = ids.drop_last();
    if q < checked_ids(init, c).len() {
        let k = checked_source(init, c, q);
        assert(ids[k] == init[k]);
        k
    } else {
        (ids.len() - 1) as int
    }
}

/// Where a checked row's id stands among the checked ids.
proof fn checked_target(ids: Seq<String>, c: Seq<bool>, k: int) -> (q: int)
    requires
        0 <= k < ids.len() && k < c.len() && c[k],
    ensures
        0 <= q < checked_ids(ids, c).len(),
        checked_ids(ids, c)[q] == ids[k],
    decreases ids.len(),
{
    let init = ids.drop_last();
    if k < init.len() {
        assert(init[k] == ids[k]);
        checked_target(init, c, k)
    } else {
        checked_ids(init, c).len() as int
    }
}

/// Deleting the checked collections closes the open collection and item
/// exactly when the open collection's row is checked; otherwise the open
/// collection and item stay. Edit mode is kept either way.
pub proof fn lemma_checked_delete_closes_only_checked(
    a: Session,
    b: Session,
    photos: Seq<String>,
    act: SessionAction,
)
    requires
        deletes_checked_collections(a, b, photos, act),
    ensures
        ({
            let cs = a.data.collections@;
            let marks = a.collections.checked@;
            let open_checked = a.collections.selected matches Some(c) && exists|k: int|
                0 <= k < cs.len() && k < marks.len() && marks[k] && #[trigger] cs[k].id@ == c@;
            &&& open_checked ==> b.collections.selected is None && b.items.selected is None
                && act.reload_editors
            &&& !open_checked ==> b.collections.selected == a.collections.selected
                && b.items.selected == a.items.selected && !act.reload_editors
            &&& b.window.editing == a.window.editing
        }),
{
    let cs = a.data.collections@;
    let marks = a.collections.checked@;
    let ids = checked_ids(ids_of(cs), marks);
    if let Some(c) = a.collections.selected {
        if among(ids, c@) {
            let q = choose|q: int| 0 <= q < ids.len() && #[trigger] ids[q]@ == c@;
            let k = checked_source(ids_of(cs), marks, q);
            assert(cs[k].id@ == c@);
        }
        if exists|k: int| 0 <= k < cs.len() && k < marks.len() && marks[k] && #[trigger] cs[k].id@ == c@ {
            let k = choose|k: int|
                0 <= k < cs.len() && k < marks.len() && marks[k] && #[trigger] cs[k].id@ == c@;
            let q = checked_target(ids_of(cs), marks, k);
            assert(ids[q]@ == c@);
        }
    }
}

/// Deletes the checked collections with their items (see
/// `delete_collections`). When the open collection was among them, the open
/// collection and item close. The dialog closes and the check marks reset.
/// Returns the photos of the deleted items, whose files are to be removed.
pub fn delete_checked_collections(s: &mut Session) -> (r: (Vec<String>, SessionAction))
    ensures
        deletes_checked_collections(*old(s), *final(s), r.0@, r.1),
{
    let all = collection_ids(&s.data.collections);
    let ids = checked_row_ids(&all, &s.collections.checked);
    let hit = match &s.collections.selected {
        Some(c) => is_among(&ids, c.as_str()),
        None => false,
    };
    let photos = delete_collections(&mut s.data, &ids);
    if hit {
        s.collections.selected = None;
        s.items.selected = None;
    }
    let m: usize = s.data.collections.len();
    clear_marks(&mut s.collections, m);
    s.window.overlay = Overlay::Closed;
    (photos, SessionAction { save_data: true, reload_editors: hit, clear_item_marks: true })
}

/// Adds a new collection (see `is_new_collection`) and resets the
/// collection check marks.
pub fn add_collection(s: &mut Session) -> (act: SessionAction)
    requires
        orders_below_max(old(s).data.collections@),
        old(s).data.collections@.len() < u64::MAX,
    ensures
        is_new_collection(old(s).data, final(s).data),
        marks_cleared(old(s).collections, final(s).collections, final(s).data.collections@.len()),
        final(s).items == old(s).items,
        final(s).window == old(s).window,
        act == (SessionAction { save_data: true, reload_editors: false, clear_item_marks: false }),
{
    new_collection(&mut s.data);
    let n: usize = s.data.collections.len();
    clear_marks(&mut s.collections, n);
    SessionAction { save_data: true, reload_editors: false, clear_item_marks: false }
}

/// `b` is `a` with the name dialog closed and nothing else changed.
pub open spec fn dialog_closed(a: Session, b: Session) -> bool {
    &&& b.data == a.data
    &&& b.collections == a.collections
    &&& b.items == a.items
    &&& b.window == Window { overlay: Overlay::Closed, name_purpose: None, ..a.window }
}

/// No action.
pub open spec fn idle() -> SessionAction {
    SessionAction { save_data: false, reload_editors: false, clear_item_marks: false }
}

/// Accepts the name dialog with the text `text`, for the purpose it was
/// opened with; `shown` holds the ids of the items shown. Blank text renames
/// nothing; saving a template names a blank one `Template <n + 1>`. The
/// dialog closes and forgets its purpose.
pub fn accept_name(s: &mut Session, text: &str, shown: &Vec<String>) -> (act: SessionAction)
    requires
        old(s).data.templates@.len() < u64::MAX,
    ensures
        match old(s).window.name_purpose {
            Some(NamePurpose::RenameCollection(i)) => if trimmed(text@).len() > 0 {
                &&& is_collection_rename(old(s).data, i as int, text@, final(s).data)
                &&& marks_cleared(
                    old(s).collections,
                    final(s).collections,
                    final(s).data.collections@.len(),
                )
                &&& final(s).items == old(s).items
                &&& final(s).window == Window {
                    overlay: Overlay::Closed,
                    name_purpose: None,
                    ..old(s).window
                }
                &&& act == SessionAction { save_data: true, ..idle() }
            } else {
                dialog_closed(*old(s), *final(s)) && act == idle()
            },
            Some(NamePurpose::RenameItem(i)) => if trimmed(text@).len() > 0 && i < shown@.len() {
                &&& is_item_rename(old(s).data, shown@[i as int]@, text@, final(s).data)
                &&& final(s).collections == old(s).collections
                &&& final(s).items == old(s).items
                &&& final(s).window == Window {
                    overlay: Overlay::Closed,
                    name_purpose: None,
                    ..old(s).window
                }
                &&& act == SessionAction { save_data: true, reload_editors: true, ..idle() }
            } else {
                dialog_closed(*old(s), *final(s)) && act == idle()
            },
            Some(NamePurpose::SaveTemplate) => match old(s).items.selected {
                Some(id) => {
                    let saved = saves_template(old(s).data, id@);
                    &&& is_template_save(old(s).data, id@, text@, final(s).data)
                    &&& final(s).collections == old(s).collections
                    &&& final(s).items == old(s).items
                    &&& final(s).window == Window {
                        overlay: Overlay::Closed,
                        name_purpose: None,
                        status: if saved {
                            Status::SavedTemplate
                        } else {
                            old(s).window.status
                        },
                        ..old(s).window
                    }
                    &&& act == SessionAction { save_data: saved, ..idle() }
                },
                None => dialog_closed(*old(s), *final(s)) && act == idle(),
            },
            None => dialog_closed(*old(s), *final(s)) && act == idle(),
        },
{
    let purpose = s.window.name_purpose;
    s.window.name_purpose = None;
    s.window.overlay = Overlay::Closed;
    let t = trim(text);
    let nonblank = t.as_str().unicode_len() > 0;
    match purpose {
        Some(NamePurpose::RenameCollection(i)) => {
            if nonblank {
                rename_collection(&mut s.data, i, text);
                let n: usize = s.data.collections.len();
                clear_marks(&mut s.collections, n);
                SessionAction { save_data: true, reload_editors: false, clear_item_marks: false }
            } else {
                SessionAction { save_data: false, reload_editors: false, clear_item_marks: false }
            }
        },
        Some(NamePurpose::RenameItem(i)) => {
            if nonblank && i < shown.len() {
                rename_item(&mut s.data, shown[i].as_str(), text);
                SessionAction { save_data: true, reload_editors: true, clear_item_marks: false }
            } else {
                SessionAction { save_data: false, reload_editors: false, clear_item_marks: false }
            }
        },
        Some(NamePurpose::SaveTemplate) => {
            match &s.items.selected {
                Some(id) => {
                    let id = id.clone();
                    let saved = save_template(&mut s.data, id.as_str(), text);
                    if saved {
                        s.window.status = Status::SavedTemplate;
                    }
                    SessionAction { save_data: saved, reload_editors: false, clear_item_marks: false }
                },
                None => SessionAction {
                    save_data: false,
                    reload_editors: false,
                    clear_item_marks: false,
                },
            }
        },
        None => SessionAction { save_data: false, reload_editors: false, clear_item_marks: false },
    }
}

} // verus!
