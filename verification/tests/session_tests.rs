use collector::model::{AppData, Collection, CustomField, Item};
use collector::selection::Selection;
use collector::session::{
    accept_name, add_collection, delete_checked_collections, delete_collection_at, import,
    select_collection, select_item, Editors, Session, SessionAction,
};
use collector::window::{step, NamePurpose, Overlay, Status, Window, WindowEvent};

fn coll(id: &str, name: &str) -> Collection {
    Collection { id: id.into(), name: name.into(), icon: "x".into(), order: 0 }
}

fn item(id: &str, cid: &str, name: &str) -> Item {
    Item {
        id: id.into(),
        collection_id: cid.into(),
        name: name.into(),
        custom_fields: vec![CustomField { id: "f".into(), label: "Maker".into(), value: "v".into() }],
        ..Default::default()
    }
}

fn sel() -> Selection {
    Selection { checked: vec![], anchor: None, multi: false, selected: None }
}

fn session() -> Session {
    Session {
        data: AppData {
            collections: vec![coll("c1", "M"), coll("c2", "P")],
            items: vec![item("i1", "c1", "Mine"), item("i2", "c2", "Pen")],
            templates: vec![],
        },
        window: Window::new(false),
        collections: sel(),
        items: sel(),
    }
}

fn editors(name: &str) -> Editors {
    Editors { name: name.into(), desc: "d\n".into(), date: "2020-00-00".into(), fields: vec![] }
}

fn strings(v: &[&str]) -> Vec<String> {
    v.iter().map(|s| s.to_string()).collect()
}

#[test]
fn clicking_a_collection_saves_edits_and_closes_the_item() {
    let mut s = session();
    s.collections.selected = Some("c1".into());
    s.items.selected = Some("i1".into());
    s.window.editing = true;
    let a = select_collection(&mut s, &editors("Renamed\n"), &vec![true, true], 1, false, false);
    assert_eq!(a, SessionAction { save_data: true, reload_editors: true, clear_item_marks: true });
    assert_eq!(s.data.items[0].name, "Renamed");
    assert_eq!(s.collections.selected.as_deref(), Some("c2"));
    assert_eq!(s.items.selected, None);
    assert!(!s.window.editing);
    // ctrl-click only marks
    s.items.selected = Some("i2".into());
    let a = select_collection(&mut s, &editors("x"), &vec![true, true], 0, true, false);
    assert_eq!(a, SessionAction { save_data: false, reload_editors: false, clear_item_marks: false });
    assert_eq!(s.collections.checked, vec![true, false]);
    assert_eq!(s.items.selected.as_deref(), Some("i2"));
}

#[test]
fn clicking_an_item_leaves_edit_mode() {
    let mut s = session();
    s.items.selected = Some("i1".into());
    s.window.editing = true;
    let shown = strings(&["i1", "i2"]);
    let a = select_item(&mut s, &editors("Mine 2"), &shown, 1, false, true);
    assert_eq!(a, SessionAction { save_data: true, reload_editors: true, clear_item_marks: false });
    assert_eq!(s.data.items[0].name, "Mine 2");
    assert_eq!(s.items.checked, vec![true, true]);
    assert_eq!(s.items.selected, None);
    assert!(!s.window.editing);
    let a = select_item(&mut s, &editors("z"), &shown, 5, false, false);
    assert_eq!(a, SessionAction { save_data: false, reload_editors: false, clear_item_marks: false });
}

#[test]
fn importing_merges_and_deselects() {
    let mut s = session();
    s.collections.selected = Some("c1".into());
    s.items.selected = Some("i1".into());
    let mut fresh = item("i3", "c3", "New");
    fresh.photos = strings(&["", "p.jpg"]);
    let imported = AppData {
        collections: vec![coll("c1", "Z"), coll("c3", "N")],
        items: vec![item("i1", "c1", "Old"), fresh],
        templates: vec![],
    };
    let (photos, a) = import(&mut s, imported);
    assert_eq!(photos, strings(&["", "p.jpg"]));
    assert_eq!(a, SessionAction { save_data: true, reload_editors: true, clear_item_marks: true });
    let ids: Vec<&str> = s.data.collections.iter().map(|c| c.id.as_str()).collect();
    assert_eq!(ids, vec!["c1", "c2", "c3"]);
    assert_eq!(s.data.collections[0].name, "M");
    assert_eq!(s.data.items[0].name, "Mine");
    assert_eq!(s.data.items[2].photos, strings(&["p.jpg"]));
    assert_eq!(s.collections.selected, None);
    assert_eq!(s.items.selected, None);
    assert_eq!(s.collections.checked, vec![false, false, false]);
    assert_eq!(s.window.status, Status::Imported);
}

#[test]
fn deleting_the_open_collection_closes_it() {
    let mut s = session();
    s.collections.selected = Some("c1".into());
    s.items.selected = Some("i1".into());
    s.window.editing = true;
    s.window.overlay = Overlay::ContextMenu;
    let (_, a) = delete_collection_at(&mut s, 0);
    assert_eq!(a, SessionAction { save_data: true, reload_editors: true, clear_item_marks: true });
    assert_eq!(s.data.collections.len(), 1);
    assert_eq!(s.data.items.len(), 1);
    assert_eq!(s.collections.selected, None);
    assert_eq!(s.items.selected, None);
    assert!(!s.window.editing);
    assert_eq!(s.window.overlay, Overlay::Closed);
    assert_eq!(s.collections.checked, vec![false]);
    let (_, a) = delete_collection_at(&mut s, 7);
    assert!(!a.save_data);
}

#[test]
fn deleting_checked_collections_resets_marks() {
    let mut s = session();
    s.collections.checked = vec![false, true];
    s.collections.multi = true;
    s.collections.selected = Some("c2".into());
    let (photos, a) = delete_checked_collections(&mut s);
    assert!(photos.is_empty());
    assert_eq!(a, SessionAction { save_data: true, reload_editors: true, clear_item_marks: true });
    assert_eq!(s.data.collections.len(), 1);
    assert_eq!(s.collections.checked, vec![false]);
    assert!(!s.collections.multi);
    assert_eq!(s.collections.selected, None);
}

#[test]
fn a_new_collection_resets_the_marks() {
    let mut s = session();
    s.collections.checked = vec![true, false];
    s.collections.multi = true;
    add_collection(&mut s);
    assert_eq!(s.data.collections[2].name, "New Collection 3");
    assert_eq!(s.collections.checked, vec![false, false, false]);
    assert!(!s.collections.multi);
}

#[test]
fn the_name_dialog_acts_for_its_purpose() {
    let mut s = session();
    step(&mut s.window, WindowEvent::OpenNameDialog(NamePurpose::RenameCollection(1)));
    let a = accept_name(&mut s, "  Pens ", &vec![]);
    assert!(a.save_data);
    assert_eq!(s.data.collections[1].name, "Pens");
    assert_eq!(s.window.overlay, Overlay::Closed);
    assert_eq!(s.window.name_purpose, None);
    step(&mut s.window, WindowEvent::OpenNameDialog(NamePurpose::RenameItem(0)));
    let a = accept_name(&mut s, "Fountain", &strings(&["i2"]));
    assert!(a.save_data && a.reload_editors);
    assert_eq!(s.data.items[1].name, "Fountain");
    step(&mut s.window, WindowEvent::OpenNameDialog(NamePurpose::RenameItem(0)));
    assert!(!accept_name(&mut s, "   ", &strings(&["i2"])).save_data);
    s.items.selected = Some("i1".into());
    step(&mut s.window, WindowEvent::OpenNameDialog(NamePurpose::SaveTemplate));
    let a = accept_name(&mut s, "", &vec![]);
    assert!(a.save_data);
    assert_eq!(s.data.templates[0].name, "Template 1");
    assert_eq!(s.window.status, Status::SavedTemplate);
    // accepting with no purpose does nothing but close
    let a = accept_name(&mut s, "x", &vec![]);
    assert!(!a.save_data);
}
