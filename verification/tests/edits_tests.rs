use collector::edits::{delete_collection, lightbox_step, merge_imported, remove_photo, set_main_photo};
use collector::model::{item_count, AppData, Collection, Item, Template};

fn coll(id: &str) -> Collection {
    Collection { id: id.to_string(), name: format!("C {id}"), icon: "📁".to_string(), order: 0 }
}

fn item(id: &str, coll: &str, photos: &[&str]) -> Item {
    Item {
        id: id.to_string(),
        collection_id: coll.to_string(),
        name: format!("item {id}"),
        photos: photos.iter().map(|p| p.to_string()).collect(),
        ..Default::default()
    }
}

fn strings(v: &[&str]) -> Vec<String> {
    v.iter().map(|s| s.to_string()).collect()
}

#[test]
fn main_photo_moves_to_front() {
    let mut p = strings(&["a", "b", "c", "d"]);
    set_main_photo(&mut p, 2);
    assert_eq!(p, strings(&["c", "a", "b", "d"]));
    set_main_photo(&mut p, 0);
    assert_eq!(p, strings(&["c", "a", "b", "d"]));
    set_main_photo(&mut p, 9);
    assert_eq!(p, strings(&["c", "a", "b", "d"]));
}

#[test]
fn removing_a_photo_returns_it() {
    let mut p = strings(&["a", "b", "c"]);
    assert_eq!(remove_photo(&mut p, 1).as_deref(), Some("b"));
    assert_eq!(p, strings(&["a", "c"]));
    assert_eq!(remove_photo(&mut p, 5), None);
    assert_eq!(p, strings(&["a", "c"]));
}

#[test]
fn lightbox_wraps_around() {
    assert_eq!(lightbox_step(0, 1, 3), 1);
    assert_eq!(lightbox_step(2, 1, 3), 0);
    assert_eq!(lightbox_step(0, -1, 3), 2);
    assert_eq!(lightbox_step(1, -1, 3), 0);
    assert_eq!(lightbox_step(5, 1, 3), 0);
    assert_eq!(lightbox_step(0, -7, 3), 2);
    assert_eq!(lightbox_step(0, 1, 0), 0);
    assert_eq!(lightbox_step(0, -1, 1), 0);
    for n in 1..6usize {
        for i in 0..n {
            assert_eq!(lightbox_step(lightbox_step(i, 1, n), -1, n), i);
            assert_eq!(lightbox_step(lightbox_step(i, -1, n), 1, n), i);
            let expect = ((i as i32 + 3).rem_euclid(n as i32)) as usize;
            assert_eq!(lightbox_step(i, 3, n), expect);
            let expect = ((i as i32 - 4).rem_euclid(n as i32)) as usize;
            assert_eq!(lightbox_step(i, -4, n), expect);
        }
    }
}

#[test]
fn deleting_a_collection_deletes_its_items() {
    let mut d = AppData {
        collections: vec![coll("a"), coll("b"), coll("c")],
        items: vec![
            item("1", "a", &["p1.jpg"]),
            item("2", "b", &["p2.jpg", "p3.jpg"]),
            item("3", "a", &[]),
            item("4", "b", &["p4.jpg"]),
        ],
        templates: vec![],
    };
    let photos = delete_collection(&mut d, 1);
    assert_eq!(photos, strings(&["p2.jpg", "p3.jpg", "p4.jpg"]));
    let cids: Vec<&str> = d.collections.iter().map(|c| c.id.as_str()).collect();
    assert_eq!(cids, vec!["a", "c"]);
    let iids: Vec<&str> = d.items.iter().map(|i| i.id.as_str()).collect();
    assert_eq!(iids, vec!["1", "3"]);
    assert_eq!(item_count(&d, "b"), 0);
    assert_eq!(item_count(&d, "a"), 2);
    // out of range: nothing happens
    let photos = delete_collection(&mut d, 7);
    assert!(photos.is_empty());
    assert_eq!(d.collections.len(), 2);
    assert_eq!(d.items.len(), 2);
}

#[test]
fn import_merges_without_overwriting() {
    let mut d = AppData {
        collections: vec![coll("a")],
        items: vec![item("1", "a", &["mine.jpg"])],
        templates: vec![Template { id: "t".into(), name: "T".into(), field_labels: vec![] }],
    };
    let mut changed = item("1", "a", &["theirs.jpg"]);
    changed.name = "old name".into();
    let imported = AppData {
        collections: vec![coll("a"), coll("b")],
        items: vec![changed, item("2", "b", &["x.jpg", "", "  ", "y.jpg"])],
        templates: vec![Template { id: "u".into(), name: "U".into(), field_labels: vec![] }],
    };
    let again = imported.clone();
    let taken = merge_imported(&mut d, imported);
    assert_eq!(taken, strings(&["x.jpg", "", "  ", "y.jpg"]));
    let cids: Vec<&str> = d.collections.iter().map(|c| c.id.as_str()).collect();
    assert_eq!(cids, vec!["a", "b"]);
    assert_eq!(d.items.len(), 2);
    assert_eq!(d.items[0].name, "item 1");
    assert_eq!(d.items[0].photos, strings(&["mine.jpg"]));
    assert_eq!(d.items[1].photos, strings(&["x.jpg", "y.jpg"]));
    assert_eq!(d.templates.len(), 1);
    // importing the same data again changes nothing
    let taken = merge_imported(&mut d, again);
    assert!(taken.is_empty());
    assert_eq!(d.collections.len(), 2);
    assert_eq!(d.items.len(), 2);
}

#[test]
fn import_keeps_duplicates_new_to_the_catalogue() {
    let mut d = AppData::default();
    let imported = AppData {
        collections: vec![coll("n"), coll("n")],
        items: vec![item("x", "n", &[]), item("x", "n", &[])],
        templates: vec![],
    };
    merge_imported(&mut d, imported);
    assert_eq!(d.collections.len(), 2);
    assert_eq!(d.items.len(), 2);
}
