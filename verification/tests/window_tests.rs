use collector::window::{step, Dialog, NamePurpose, Overlay, Status, Window, WindowAction, WindowEvent};

fn window() -> Window {
    Window::new(false)
}

fn none() -> WindowAction {
    WindowAction {
        save_edits: false,
        reload_editors: false,
        drop_lightbox_image: false,
        show_photo: None,
        clear_coll_marks: false,
        clear_item_marks: false,
        clear_anchors: false,
    }
}

#[test]
fn closing_the_enlarged_view_saves_the_edits() {
    let mut w = window();
    assert_eq!(step(&mut w, WindowEvent::OpenEnlarge), none());
    assert_eq!(w.overlay, Overlay::Enlarge);
    assert!(w.editing && w.enlarging);
    let a = step(&mut w, WindowEvent::CloseOverlay);
    assert_eq!(a, WindowAction { save_edits: true, ..none() });
    assert_eq!(w.overlay, Overlay::Closed);
    assert!(!w.enlarging);
}

#[test]
fn escape_closes_then_clears_searches_then_marks() {
    let mut w = window();
    step(&mut w, WindowEvent::ItemSearchChanged("pen".into()));
    step(&mut w, WindowEvent::Open(Dialog::Settings));
    assert_eq!(w.overlay, Overlay::Settings);
    assert_eq!(step(&mut w, WindowEvent::Escape), none());
    assert_eq!(w.overlay, Overlay::Closed);
    assert_eq!(step(&mut w, WindowEvent::Escape), WindowAction { clear_item_marks: true, ..none() });
    assert_eq!(w.item_search, "");
    assert_eq!(
        step(&mut w, WindowEvent::Escape),
        WindowAction { clear_coll_marks: true, clear_item_marks: true, clear_anchors: true, ..none() }
    );
}

#[test]
fn edit_mode_saves_when_left() {
    let mut w = window();
    assert_eq!(step(&mut w, WindowEvent::SaveShortcut), none());
    step(&mut w, WindowEvent::ToggleEdit);
    assert!(w.editing);
    assert_eq!(step(&mut w, WindowEvent::SaveShortcut), WindowAction { save_edits: true, ..none() });
    assert_eq!(w.status.text(), "Saved");
    let a = step(&mut w, WindowEvent::ToggleEdit);
    assert_eq!(a, WindowAction { save_edits: true, reload_editors: true, ..none() });
    assert!(!w.editing);
    step(&mut w, WindowEvent::ToggleEdit);
    assert_eq!(w.status.text(), "");
}

#[test]
fn the_lightbox_wraps_around_and_closes_on_no_photos() {
    let mut w = window();
    assert_eq!(step(&mut w, WindowEvent::OpenLightbox { idx: 0, count: 0 }), none());
    assert_eq!(w.overlay, Overlay::Closed);
    let a = step(&mut w, WindowEvent::OpenLightbox { idx: 9, count: 3 });
    assert_eq!(a.show_photo, Some(2));
    assert_eq!(w.overlay, Overlay::Lightbox);
    assert_eq!(step(&mut w, WindowEvent::LightboxStep { forward: true, count: 3 }).show_photo, Some(0));
    assert_eq!(step(&mut w, WindowEvent::LightboxStep { forward: false, count: 3 }).show_photo, Some(2));
    let a = step(&mut w, WindowEvent::LightboxStep { forward: true, count: 0 });
    assert!(a.drop_lightbox_image);
    assert_eq!(w.lightbox_index, 0);
    let a = step(&mut w, WindowEvent::CloseOverlay);
    assert_eq!(a, WindowAction { drop_lightbox_image: true, ..none() });
}

#[test]
fn status_messages_follow_template_and_import_events() {
    let mut w = window();
    step(&mut w, WindowEvent::Open(Dialog::TemplatePicker));
    step(&mut w, WindowEvent::TemplatePicked { applied: true });
    assert_eq!(w.status.text(), "Loaded template");
    assert_eq!(w.overlay, Overlay::Closed);
    step(&mut w, WindowEvent::OpenNameDialog(NamePurpose::RenameItem(3)));
    assert_eq!(w.overlay, Overlay::NameInput);
    assert_eq!(w.name_purpose, Some(NamePurpose::RenameItem(3)));
    step(&mut w, WindowEvent::StartTemplateRename);
    assert!(w.renaming_template);
    step(&mut w, WindowEvent::CommitTemplateRename);
    assert!(!w.renaming_template);
}

#[test]
fn a_recovered_start_shows_the_notice() {
    let w = Window::new(true);
    assert_eq!(w.overlay, Overlay::DataRecovered);
    assert!(!w.editing && w.name_purpose.is_none());
    assert_eq!(w.status, Status::Empty);
    assert_eq!(Window::new(false).overlay, Overlay::Closed);
}
