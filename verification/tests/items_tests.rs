use collector::items::{add_custom_field, apply_template, delete_custom_field, delete_item, duplicate_item, fields_from_labels, find_item};
use collector::model::{AppData, CustomField, Item, Template};

fn item(id: &str, photos: &[&str]) -> Item {
    Item {
        id: id.to_string(),
        collection_id: "c".to_string(),
        name: format!("item {id}"),
        photos: photos.iter().map(|p| p.to_string()).collect(),
        custom_fields: vec![CustomField { id: "f1".into(), label: "Maker".into(), value: "Leica".into() }],
        ..Default::default()
    }
}

fn data() -> AppData {
    AppData {
        collections: vec![],
        items: vec![item("a", &["a1.jpg", "a2.jpg"]), item("b", &["b1.jpg"]), item("a", &["dup.jpg"])],
        templates: vec![Template { id: "t".into(), name: "Cameras".into(), field_labels: vec!["Maker".into(), "Year".into()] }],
    }
}

fn is_uuid(s: &str) -> bool {
    s.len() == 36 && s.chars().nth(14) == Some('4')
}

#[test]
fn deleting_an_item_returns_its_photos() {
    let mut d = data();
    assert_eq!(delete_item(&mut d, "a"), vec!["a1.jpg", "a2.jpg"]);
    assert_eq!(d.items.len(), 1);
    assert_eq!(d.items[0].id, "b");
    assert!(delete_item(&mut d, "zzz").is_empty());
    assert_eq!(d.items.len(), 1);
}

#[test]
fn custom_fields_are_added_and_removed() {
    let mut d = data();
    assert!(add_custom_field(&mut d, "b"));
    let f = &d.items[1].custom_fields;
    assert_eq!(f.len(), 2);
    assert_eq!(f[1].label, "NEW FIELD");
    assert_eq!(f[1].value, "");
    assert!(is_uuid(&f[1].id));
    assert!(!add_custom_field(&mut d, "nope"));
    let mut fields = d.items[1].custom_fields.clone();
    delete_custom_field(&mut fields, "f1");
    assert_eq!(fields.len(), 1);
    assert_eq!(fields[0].label, "NEW FIELD");
}

#[test]
fn templates_replace_the_fields() {
    let mut d = data();
    assert!(apply_template(&mut d, "b", "t"));
    let f = &d.items[1].custom_fields;
    let labels: Vec<&str> = f.iter().map(|x| x.label.as_str()).collect();
    assert_eq!(labels, vec!["Maker", "Year"]);
    assert!(f.iter().all(|x| x.value.is_empty() && is_uuid(&x.id)));
    assert_ne!(f[0].id, f[1].id);
    assert!(apply_template(&mut d, "b", "missing"));
    assert!(d.items[1].custom_fields.is_empty());
    assert!(!apply_template(&mut d, "nope", "t"));
    assert_eq!(fields_from_labels(&vec![]).len(), 0);
}

#[test]
fn duplicates_land_after_the_last_match() {
    let mut d = data();
    assert!(duplicate_item(&mut d, "a", vec!["copy1.jpg".into()]));
    assert_eq!(d.items.len(), 4);
    let copy = &d.items[3];
    assert_eq!(copy.name, "item a (copy)");
    assert_eq!(copy.photos, vec!["copy1.jpg"]);
    assert!(is_uuid(&copy.id));
    assert_eq!(copy.custom_fields[0].value, "Leica");
    assert_ne!(copy.custom_fields[0].id, "f1");
    assert!(duplicate_item(&mut d, "b", vec![]));
    assert_eq!(d.items[2].name, "item b (copy)");
    assert!(!duplicate_item(&mut d, "zzz", vec![]));
    assert_eq!(d.items.len(), 5);
    assert_eq!(find_item(&d.items, "b"), Some(1));
}
