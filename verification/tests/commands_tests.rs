use collector::commands::{
    context_command, several_checked, ContextCommand,
    add_photos, delete_collections, delete_items, delete_template, duplicate_collection,
    flush_edits, new_collection, rename_collection, rename_item, rename_template, resolve_target,
    save_template, set_collection_icon,
};
use collector::model::{AppData, Collection, CustomField, Item, Template};
use collector::selection::{checked_row_ids, clear_marks, toggle_check, Selection};
use collector::text::{trim, trim_trailing_newlines};

fn coll(id: &str, name: &str, order: u64) -> Collection {
    Collection { id: id.into(), name: name.into(), icon: "x".into(), order }
}

fn item(id: &str, cid: &str, photos: &[&str]) -> Item {
    Item {
        id: id.into(),
        collection_id: cid.into(),
        name: format!("item {id}"),
        short_desc: "desc".into(),
        photos: photos.iter().map(|p| p.to_string()).collect(),
        acquired_date: "2020-01-00".into(),
        custom_fields: vec![
            CustomField { id: "f1".into(), label: "Maker".into(), value: "Leica".into() },
            CustomField { id: "f2".into(), label: "Year".into(), value: "1954".into() },
        ],
    }
}

fn data() -> AppData {
    AppData {
        collections: vec![coll("c1", "Cameras", 3), coll("c2", "Pens", 7)],
        items: vec![
            item("a", "c1", &["a1.jpg", "a2.jpg"]),
            item("b", "c2", &["b1.jpg"]),
            item("c", "c1", &["c1.jpg"]),
        ],
        templates: vec![
            Template { id: "t1".into(), name: "Cameras".into(), field_labels: vec!["Maker".into()] },
            Template { id: "t2".into(), name: "Pens".into(), field_labels: vec![] },
        ],
    }
}

fn is_uuid(s: &str) -> bool {
    s.len() == 36 && s.chars().nth(14) == Some('4')
}

fn strings(v: &[&str]) -> Vec<String> {
    v.iter().map(|s| s.to_string()).collect()
}

#[test]
fn trimming_matches_std() {
    for s in ["", "  ", " a b ", "\tx\n", "\u{3000}y\u{a0}", "plain"] {
        assert_eq!(trim(s), s.trim());
        assert_eq!(trim_trailing_newlines(s), s.trim_end_matches('\n'));
    }
    assert_eq!(trim_trailing_newlines("ab\n\n"), "ab");
    assert_eq!(trim_trailing_newlines("ab\n \n"), "ab\n ");
}

#[test]
fn new_collections_are_numbered_and_ordered_after_the_rest() {
    let mut d = data();
    new_collection(&mut d);
    let c = &d.collections[2];
    assert_eq!(c.name, "New Collection 3");
    assert_eq!(c.icon, "\u{1F3A7}");
    assert_eq!(c.order, 8);
    assert!(is_uuid(&c.id));
    let mut e = AppData::default();
    new_collection(&mut e);
    assert_eq!(e.collections[0].name, "New Collection 1");
    assert_eq!(e.collections[0].icon, "\u{1F4C1}");
    assert_eq!(e.collections[0].order, 0);
    for _ in 0..10 {
        new_collection(&mut e);
    }
    assert_eq!(e.collections[10].icon, "\u{1F4C1}");
    assert_eq!(e.collections[10].name, "New Collection 11");
    assert_eq!(e.collections[10].order, 10);
}

#[test]
fn duplicating_a_collection_copies_its_items() {
    let mut d = data();
    let copied = vec![strings(&["a1-copy.jpg"]), strings(&[])];
    assert!(duplicate_collection(&mut d, 0, copied));
    assert_eq!(d.collections.len(), 3);
    let c = d.collections[1].clone();
    assert_eq!(c.name, "Cameras (copy)");
    assert_eq!(c.icon, "x");
    assert_eq!(c.order, 8);
    assert!(is_uuid(&c.id));
    assert_eq!(d.collections[2].id, "c2");
    assert_eq!(d.items.len(), 5);
    let first = &d.items[3];
    assert_eq!(first.collection_id, c.id);
    assert_eq!(first.name, "item a");
    assert_eq!(first.photos, strings(&["a1-copy.jpg"]));
    assert!(is_uuid(&first.id));
    assert_eq!(first.custom_fields[1].label, "Year");
    assert_eq!(first.custom_fields[1].value, "1954");
    assert!(is_uuid(&first.custom_fields[0].id));
    assert_eq!(d.items[4].name, "item c");
    assert!(d.items[4].photos.is_empty());
    assert!(!duplicate_collection(&mut d, 9, vec![]));
}

#[test]
fn deleting_checked_collections_removes_their_items() {
    let mut d = data();
    let ids = checked_row_ids(&strings(&["c1", "c2"]), &vec![true, false]);
    assert_eq!(ids, strings(&["c1"]));
    let photos = delete_collections(&mut d, &ids);
    assert_eq!(photos, strings(&["a1.jpg", "a2.jpg", "c1.jpg"]));
    assert_eq!(d.collections.len(), 1);
    assert_eq!(d.collections[0].id, "c2");
    assert_eq!(d.items.len(), 1);
    assert_eq!(d.items[0].id, "b");
    assert_eq!(d.templates.len(), 2);
}

#[test]
fn deleting_checked_items() {
    let mut d = data();
    let photos = delete_items(&mut d, &strings(&["c", "zz", "a"]));
    assert_eq!(photos, strings(&["c1.jpg", "a1.jpg", "a2.jpg"]));
    assert_eq!(d.items.len(), 1);
    assert_eq!(d.items[0].id, "b");
    assert_eq!(d.collections.len(), 2);
}

#[test]
fn renames_are_trimmed_and_blank_ones_ignored() {
    let mut d = data();
    assert!(rename_collection(&mut d, 1, "  Fountain pens \n"));
    assert_eq!(d.collections[1].name, "Fountain pens");
    assert!(!rename_collection(&mut d, 1, "   "));
    assert!(!rename_collection(&mut d, 5, "X"));
    assert_eq!(d.collections[1].name, "Fountain pens");
    assert!(rename_item(&mut d, "b", " Pelikan "));
    assert_eq!(d.items[1].name, "Pelikan");
    assert!(!rename_item(&mut d, "b", ""));
    assert!(!rename_item(&mut d, "nope", "X"));
    assert!(rename_template(&mut d, "t2", " Ink "));
    assert_eq!(d.templates[1].name, "Ink");
    assert!(!rename_template(&mut d, "t2", " "));
    assert!(!rename_template(&mut d, "t9", "X"));
}

#[test]
fn saving_a_template_takes_the_field_labels() {
    let mut d = data();
    assert!(save_template(&mut d, "a", "  "));
    let t = d.templates[2].clone();
    assert_eq!(t.name, "Template 3");
    assert_eq!(t.field_labels, strings(&["Maker", "Year"]));
    assert!(is_uuid(&t.id));
    assert!(save_template(&mut d, "b", " Pens "));
    assert_eq!(d.templates[3].name, "Pens");
    d.items[2].custom_fields.clear();
    assert!(!save_template(&mut d, "c", "Empty"));
    assert!(!save_template(&mut d, "none", "X"));
    assert_eq!(d.templates.len(), 4);
    delete_template(&mut d, "t1");
    assert_eq!(d.templates.len(), 3);
    assert_eq!(d.templates[0].id, "t2");
}

#[test]
fn icons_and_photos_are_set() {
    let mut d = data();
    assert!(set_collection_icon(&mut d, 0, "\u{1F4F7}".into()));
    assert_eq!(d.collections[0].icon, "\u{1F4F7}");
    assert!(!set_collection_icon(&mut d, 2, "y".into()));
    assert!(add_photos(&mut d, "b", strings(&["n1.jpg", "n2.jpg"])));
    assert_eq!(d.items[1].photos, strings(&["b1.jpg", "n1.jpg", "n2.jpg"]));
    assert!(!add_photos(&mut d, "zz", strings(&["n3.jpg"])));
}

#[test]
fn context_targets_follow_the_row_id() {
    let ids = strings(&["x", "y", "z"]);
    assert_eq!(resolve_target(&ids, &Some("z".into()), 0), Some(2));
    assert_eq!(resolve_target(&ids, &Some("w".into()), 0), None);
    assert_eq!(resolve_target(&ids, &None, 1), Some(1));
    assert_eq!(resolve_target(&ids, &None, 3), None);
}

#[test]
fn editors_are_written_back() {
    let mut d = data();
    let edits = vec![
        CustomField { id: "f2".into(), label: "Made\n".into(), value: "1955\n\n".into() },
        CustomField { id: "gone".into(), label: "L".into(), value: "V".into() },
        CustomField { id: "f2".into(), label: "Built".into(), value: "1956".into() },
    ];
    assert!(flush_edits(&mut d, "a", "Leica M3\n", "A camera\n", "1954-03-00".into(), &edits));
    let it = &d.items[0];
    assert_eq!(it.name, "Leica M3");
    assert_eq!(it.short_desc, "A camera");
    assert_eq!(it.acquired_date, "1954-03-00");
    assert_eq!(it.custom_fields[0].label, "Maker");
    assert_eq!(it.custom_fields[1].label, "Built");
    assert_eq!(it.custom_fields[1].value, "1956");
    assert_eq!(it.photos, strings(&["a1.jpg", "a2.jpg"]));
    assert!(!flush_edits(&mut d, "q", "n", "d", String::new(), &edits));
}

#[test]
fn check_marks_toggle_and_clear() {
    let mut s = Selection { checked: vec![false, false], anchor: Some(1), multi: false, selected: None };
    toggle_check(&mut s, 1);
    assert_eq!(s.checked, vec![false, true]);
    assert!(s.multi);
    toggle_check(&mut s, 1);
    assert!(!s.multi);
    toggle_check(&mut s, 7);
    assert_eq!(s.checked, vec![false, false]);
    toggle_check(&mut s, 0);
    clear_marks(&mut s, 3);
    assert_eq!(s.checked, vec![false, false, false]);
    assert!(!s.multi);
    assert_eq!(s.anchor, Some(1));
}

#[test]
fn context_menu_entries_pick_their_command() {
    assert!(!several_checked(&vec![true, false, false]));
    assert!(several_checked(&vec![true, false, true]));
    assert_eq!(context_command(true, true, None, false), Some(ContextCommand::DuplicateCheckedCollections));
    assert_eq!(context_command(true, false, Some(3), true), Some(ContextCommand::DeleteCollection(3)));
    assert_eq!(context_command(true, false, None, true), None);
    assert_eq!(context_command(false, true, None, true), Some(ContextCommand::DeleteCheckedItems));
    assert_eq!(context_command(false, false, None, false), Some(ContextCommand::DuplicateSelectedItem));
}
