use collector::model::{
    plan_load, LoadedFile, default_accent_hex, default_dark_mode, item_count, normalize_loaded_data, sort_collections,
    AppData, Collection, CustomField, Item, SortMode, Template,
};

fn coll(id: &str, name: &str, order: u64) -> Collection {
    Collection { id: id.to_string(), name: name.to_string(), icon: "📁".to_string(), order }
}

fn item(id: &str, coll: &str, photos: &[&str]) -> Item {
    Item {
        id: id.to_string(),
        collection_id: coll.to_string(),
        name: format!("item {id}"),
        photos: photos.iter().map(|p| p.to_string()).collect(),
        ..Default::default()
    }
}

fn ids(data: &AppData) -> Vec<String> {
    data.collections.iter().map(|c| c.id.clone()).collect()
}

fn sample() -> AppData {
    AppData {
        collections: vec![
            coll("a", "banana", 2),
            coll("b", "Apple", 0),
            coll("c", "cherry", 1),
            coll("d", "apple", 3),
        ],
        items: vec![
            item("i1", "c", &[]),
            item("i2", "c", &[]),
            item("i3", "a", &[]),
            item("i4", "d", &[]),
            item("i5", "c", &[]),
            item("i6", "d", &[]),
        ],
        templates: vec![Template { id: "t".into(), name: "T".into(), field_labels: vec!["x".into()] }],
    }
}

#[test]
fn defaults_are_dark_and_blue() {
    assert!(default_dark_mode());
    assert_eq!(default_accent_hex(), "#4f8ef7");
}

#[test]
fn sort_mode_default_is_added() {
    assert_eq!(SortMode::default(), SortMode::Added);
}

#[test]
fn item_count_counts_only_that_collection() {
    let d = sample();
    assert_eq!(item_count(&d, "c"), 3);
    assert_eq!(item_count(&d, "d"), 2);
    assert_eq!(item_count(&d, "a"), 1);
    assert_eq!(item_count(&d, "b"), 0);
    assert_eq!(item_count(&d, "missing"), 0);
    assert_eq!(item_count(&AppData::default(), "c"), 0);
}

#[test]
fn sort_added_orders_by_insertion_order() {
    let mut d = sample();
    sort_collections(&mut d, SortMode::Added);
    assert_eq!(ids(&d), vec!["b", "c", "a", "d"]);
}

#[test]
fn sort_by_name_ignores_case_and_is_stable() {
    let mut d = sample();
    sort_collections(&mut d, SortMode::NameAsc);
    // "Apple" and "apple" tie once lowercased and keep their order.
    assert_eq!(ids(&d), vec!["b", "d", "a", "c"]);
    let mut d = sample();
    sort_collections(&mut d, SortMode::NameDesc);
    assert_eq!(ids(&d), vec!["c", "a", "b", "d"]);
}

#[test]
fn sort_by_name_uses_unicode_lowercase() {
    let mut d = AppData {
        collections: vec![coll("x", "Zebra", 0), coll("y", "ÉCLAIR", 1), coll("z", "éclat", 2)],
        items: vec![],
        templates: vec![],
    };
    sort_collections(&mut d, SortMode::NameAsc);
    // "zebra" < "éclair" < "éclat" (é sorts after ASCII letters)
    assert_eq!(ids(&d), vec!["x", "y", "z"]);
}

#[test]
fn sort_by_item_count_both_ways_stably() {
    let mut d = sample();
    sort_collections(&mut d, SortMode::LowOrOld);
    // counts: a=1, b=0, c=3, d=2
    assert_eq!(ids(&d), vec!["b", "a", "d", "c"]);
    let mut d = sample();
    sort_collections(&mut d, SortMode::HighOrNew);
    assert_eq!(ids(&d), vec!["c", "d", "a", "b"]);
    // ties keep their relative order
    let mut d = AppData {
        collections: vec![coll("p", "p", 0), coll("q", "q", 0), coll("r", "r", 0)],
        items: vec![],
        templates: vec![],
    };
    sort_collections(&mut d, SortMode::HighOrNew);
    assert_eq!(ids(&d), vec!["p", "q", "r"]);
}

#[test]
fn sort_leaves_items_and_templates_alone() {
    let mut d = sample();
    let before: Vec<String> = d.items.iter().map(|i| i.id.clone()).collect();
    sort_collections(&mut d, SortMode::HighOrNew);
    let after: Vec<String> = d.items.iter().map(|i| i.id.clone()).collect();
    assert_eq!(before, after);
    assert_eq!(d.templates.len(), 1);
    assert_eq!(d.collections.len(), 4);
}

#[test]
fn sorting_twice_is_sorting_once() {
    for mode in [SortMode::Added, SortMode::NameAsc, SortMode::NameDesc, SortMode::LowOrOld, SortMode::HighOrNew] {
        let mut d = sample();
        sort_collections(&mut d, mode);
        let once = ids(&d);
        sort_collections(&mut d, mode);
        assert_eq!(ids(&d), once);
    }
}

#[test]
fn sort_of_empty_catalogue() {
    let mut d = AppData::default();
    sort_collections(&mut d, SortMode::NameAsc);
    assert!(d.collections.is_empty());
}

#[test]
fn normalize_strips_photo_paths_to_names() {
    let mut d = AppData {
        collections: vec![coll("a", "A", 0)],
        items: vec![item("i", "a", &["/home/u/photos/x.jpg", "y.png", "dir/z.gif/", "", "..", "a/./"])],
        templates: vec![],
    };
    assert!(normalize_loaded_data(&mut d));
    assert_eq!(d.items[0].photos, vec!["x.jpg", "y.png", "z.gif", "", "..", "a"]);
    assert_eq!(d.collections[0].order, 0);
    // a second load finds nothing to migrate
    assert!(!normalize_loaded_data(&mut d));
}

#[test]
fn normalize_renumbers_repeated_or_zero_orders() {
    let mut d = AppData {
        collections: vec![coll("a", "A", 0), coll("b", "B", 0), coll("c", "C", 0)],
        items: vec![],
        templates: vec![],
    };
    assert!(normalize_loaded_data(&mut d));
    let orders: Vec<u64> = d.collections.iter().map(|c| c.order).collect();
    assert_eq!(orders, vec![0, 1, 2]);
    assert!(!normalize_loaded_data(&mut d));

    let mut d = AppData {
        collections: vec![coll("a", "A", 7), coll("b", "B", 3), coll("c", "C", 7)],
        items: vec![],
        templates: vec![],
    };
    assert!(normalize_loaded_data(&mut d));
    let orders: Vec<u64> = d.collections.iter().map(|c| c.order).collect();
    assert_eq!(orders, vec![0, 1, 2]);
}

#[test]
fn normalize_keeps_distinct_orders_and_clean_data() {
    let mut d = AppData {
        collections: vec![coll("a", "A", 5), coll("b", "B", 2)],
        items: vec![item("i", "a", &["p.jpg"])],
        templates: vec![],
    };
    assert!(!normalize_loaded_data(&mut d));
    let orders: Vec<u64> = d.collections.iter().map(|c| c.order).collect();
    assert_eq!(orders, vec![5, 2]);
    assert_eq!(d.items[0].photos, vec!["p.jpg"]);
    // one collection with order 0 is already normalized
    let mut d = AppData { collections: vec![coll("a", "A", 0)], items: vec![], templates: vec![] };
    assert!(!normalize_loaded_data(&mut d));
    let mut d = AppData::default();
    assert!(!normalize_loaded_data(&mut d));
}

#[test]
fn normalize_keeps_everything_else() {
    let mut it = item("i", "a", &["/abs/q.jpg"]);
    it.short_desc = "desc".into();
    it.acquired_date = "2020-01-00".into();
    it.custom_fields = vec![CustomField { id: "f".into(), label: "L".into(), value: "V".into() }];
    let mut d = AppData { collections: vec![coll("a", "A", 1)], items: vec![it], templates: vec![] };
    assert!(normalize_loaded_data(&mut d));
    let it = &d.items[0];
    assert_eq!(it.short_desc, "desc");
    assert_eq!(it.acquired_date, "2020-01-00");
    assert_eq!(it.custom_fields[0].value, "V");
    assert_eq!(it.photos, vec!["q.jpg"]);
    assert_eq!(d.collections[0].order, 1);
}

#[test]
fn loading_never_writes_over_a_corrupt_file() {
    let plan = plan_load(LoadedFile::Corrupt);
    assert!(plan.preserve_original && !plan.write_back);
    assert!(plan.data.collections.is_empty() && plan.data.items.is_empty());
    let plan = plan_load(LoadedFile::Absent);
    assert!(!plan.preserve_original && !plan.write_back);
    let migrating = AppData { collections: vec![coll("a", "A", 0), coll("b", "B", 0)], items: vec![], templates: vec![] };
    let plan = plan_load(LoadedFile::Parsed(migrating));
    assert!(plan.write_back && !plan.preserve_original);
    assert_eq!(plan.data.collections[1].order, 1);
    let clean = AppData { collections: vec![coll("a", "A", 4)], items: vec![item("i", "a", &["p.jpg"])], templates: vec![] };
    let plan = plan_load(LoadedFile::Parsed(clean));
    assert!(!plan.write_back);
}
