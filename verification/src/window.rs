//! The catalogue window's own state (which dialog is open, edit mode, the
//! status line, the searches, the lightbox) and how each event moves it on.
//! The step returns what the caller must then do with the catalogue and the
//! screen.
use vstd::prelude::*;
use crate::edits::{lemma_lightbox_step_back_and_forth, lightbox_step, stepped};

verus! {

/// Which overlay is open over the three panels, if any.
#[derive(Debug, Clone, Copy, PartialEq, Eq, Structural)]
pub enum Overlay {
    /// No overlay: the three panels are in front.
    Closed,
    Settings,
    IconPicker,
    TemplatePicker,
    Lightbox,
    NameInput,
    ContextMenu,
    /// A big editable view of one detail field.
    Enlarge,
    /// The start-up notice that the data file was unreadable.
    DataRecovered,
}

/// The dialogs that open without further state of the window.
#[derive(Debug, Clone, Copy, PartialEq, Eq, Structural)]
pub enum Dialog {
    Settings,
    IconPicker,
    TemplatePicker,
    ContextMenu,
}

/// What the name dialog is for.
#[derive(Debug, Clone, Copy, PartialEq, Eq, Structural)]
pub enum NamePurpose {
    /// Renaming collection `idx`.
    RenameCollection(usize),
    /// Renaming the `idx`-th item shown.
    RenameItem(usize),
    /// Saving the open item's field labels as a template.
    SaveTemplate,
}

/// The overlay a dialog shows.
pub open spec fn dialog_overlay(d: Dialog) -> Overlay {
    match d {
        Dialog::Settings => Overlay::Settings,
        Dialog::IconPicker => Overlay::IconPicker,
        Dialog::TemplatePicker => Overlay::TemplatePicker,
        Dialog::ContextMenu => Overlay::ContextMenu,
    }
}

/// What the status line says.
#[derive(Debug, Clone, Copy, PartialEq, Eq, Structural)]
pub enum Status {
    Empty,
    Saved,
    LoadedTemplate,
    SavedTemplate,
    Imported,
}

impl Status {
    /// The text shown for the status.
    pub fn text(&self) -> (r: String)
        ensures
            r@ == match *self {
                Status::Empty => ""@,
                Status::Saved => "Saved"@,
                Status::LoadedTemplate => "Loaded template"@,
                Status::SavedTemplate => "Saved template"@,
                Status::Imported => "Imported"@,
            },
    {
        match self {
            Status::Empty => "".to_owned(),
            Status::Saved => "Saved".to_owned(),
            Status::LoadedTemplate => "Loaded template".to_owned(),
            Status::SavedTemplate => "Saved template".to_owned(),
            Status::Imported => "Imported".to_owned(),
        }
    }
}

/// The window's own state.
pub struct Window {
    pub overlay: Overlay,
    /// Whether the detail panel is in edit mode.
    pub editing: bool,
    pub status: Status,
    pub item_search: String,
    pub coll_search: String,
    /// The photo the lightbox shows, and how many photos it steps through.
    pub lightbox_index: usize,
    pub lightbox_count: usize,
    /// Whether a template is being renamed in the template picker.
    pub renaming_template: bool,
    /// Whether the enlarged view is editing a field.
    pub enlarging: bool,
    /// What the name dialog, while open, is for.
    pub name_purpose: Option<NamePurpose>,
}

impl Window {
    /// The window at start-up: the panels in front, or the notice that the
    /// data file was unreadable (and kept aside) when `recovered`; not
    /// editing, no status, no search.
    pub fn new(recovered: bool) -> (r: Window)
        ensures
            r.overlay == (if recovered { Overlay::DataRecovered } else { Overlay::Closed }),
            !r.editing,
            r.status == Status::Empty,
            r.item_search@.len() == 0 && r.coll_search@.len() == 0,
            r.lightbox_index == 0 && r.lightbox_count == 0,
            !r.renaming_template && !r.enlarging,
            r.name_purpose is None,
    {
        Window {
            overlay: if recovered {
                Overlay::DataRecovered
            } else {
                Overlay::Closed
            },
            editing: false,
            status: Status::Empty,
            item_search: String::new(),
            coll_search: String::new(),
            lightbox_index: 0,
            lightbox_count: 0,
            renaming_template: false,
            enlarging: false,
            name_purpose: None,
        }
    }
}

/// What happens to the window.
pub enum WindowEvent {
    /// The dialog's close button or a click on the scrim.
    CloseOverlay,
    /// The Escape key.
    Escape,
    /// The Edit / Done button of the detail panel.
    ToggleEdit,
    /// Ctrl+S (Cmd+S).
    SaveShortcut,
    /// A button that opens a dialog.
    Open(Dialog),
    /// A button or menu entry that opens the name dialog for a purpose.
    OpenNameDialog(NamePurpose),
    /// The enlarge button of a detail field.
    OpenEnlarge,
    /// A click on photo `idx` of the selected item, which has `count` photos.
    OpenLightbox { idx: usize, count: usize },
    /// The lightbox's previous or next arrow (a button or the arrow keys);
    /// the selected item now has `count` photos.
    LightboxStep { forward: bool, count: usize },
    /// The text of the item search or of the collection search changed.
    ItemSearchChanged(String),
    CollSearchChanged(String),
    /// A template's rename editor opened, or its rename was committed.
    StartTemplateRename,
    CommitTemplateRename,
    /// A template was picked for the selected item (`applied` when there is one).
    TemplatePicked { applied: bool },
}

/// What the caller does after a step.
#[derive(Debug, Clone, Copy, PartialEq, Eq, Structural)]
pub struct WindowAction {
    /// Write the detail editors back into the item and save the catalogue.
    pub save_edits: bool,
    /// Reload the detail editors from the selected item.
    pub reload_editors: bool,
    /// Release the lightbox's full-size image.
    pub drop_lightbox_image: bool,
    /// Load the full-size image of this photo of the selected item.
    pub show_photo: Option<usize>,
    /// Clear the check marks of the collections, or of the items.
    pub clear_coll_marks: bool,
    pub clear_item_marks: bool,
    /// Forget where shift-click ranges start.
    pub clear_anchors: bool,
}

/// Nothing to do.
pub open spec fn no_action() -> WindowAction {
    WindowAction {
        save_edits: false,
        reload_editors: false,
        drop_lightbox_image: false,
        show_photo: None,
        clear_coll_marks: false,
        clear_item_marks: false,
        clear_anchors: false,
    }
}

fn nothing() -> (r: WindowAction)
    ensures
        r == no_action(),
{
    WindowAction {
        save_edits: false,
        reload_editors: false,
        drop_lightbox_image: false,
        show_photo: None,
        clear_coll_marks: false,
        clear_item_marks: false,
        clear_anchors: false,
    }
}

/// `b` keeps both searches of `a`.
pub open spec fn keeps_searches(a: Window, b: Window) -> bool {
    b.item_search@ == a.item_search@ && b.coll_search@ == a.coll_search@
}

/// `b` keeps the lightbox of `a`.
pub open spec fn keeps_lightbox(a: Window, b: Window) -> bool {
    b.lightbox_index == a.lightbox_index && b.lightbox_count == a.lightbox_count
}

/// How the window moves on from `a` to `b` on `ev`, asking for `act`.
pub open spec fn window_step(a: Window, ev: WindowEvent, b: Window, act: WindowAction) -> bool {
    &&& b.name_purpose == match ev {
        WindowEvent::OpenNameDialog(p) => Some(p),
        _ => a.name_purpose,
    }
    &&& match ev {
        WindowEvent::CloseOverlay => {
            &&& b.overlay == Overlay::Closed
            &&& !b.renaming_template
            &&& b.enlarging == (a.enlarging && a.overlay != Overlay::Enlarge)
            &&& b.editing == a.editing && b.status == a.status
            &&& keeps_searches(a, b) && keeps_lightbox(a, b)
            &&& act == WindowAction {
                save_edits: a.overlay == Overlay::Enlarge,
                drop_lightbox_image: a.overlay == Overlay::Lightbox,
                ..no_action()
            }
        },
        WindowEvent::Escape => {
            &&& b.editing == a.editing && b.status == a.status && b.enlarging == a.enlarging
            &&& keeps_lightbox(a, b)
            &&& if a.overlay != Overlay::Closed {
                &&& b.overlay == Overlay::Closed && !b.renaming_template
                &&& keeps_searches(a, b)
                &&& act == WindowAction {
                    drop_lightbox_image: a.overlay == Overlay::Lightbox,
                    ..no_action()
                }
            } else if a.item_search@.len() > 0 || a.coll_search@.len() > 0 {
                &&& b.overlay == a.overlay && b.renaming_template == a.renaming_template
                &&& b.item_search@.len() == 0 && b.coll_search@.len() == 0
                &&& act == WindowAction { clear_item_marks: true, ..no_action() }
            } else {
                &&& b.overlay == a.overlay && b.renaming_template == a.renaming_template
                &&& keeps_searches(a, b)
                &&& act == WindowAction {
                    clear_coll_marks: true,
                    clear_item_marks: true,
                    clear_anchors: true,
                    ..no_action()
                }
            }
        },
        WindowEvent::ToggleEdit => {
            &&& b.overlay == a.overlay && b.renaming_template == a.renaming_template
            &&& b.enlarging == a.enlarging && keeps_searches(a, b) && keeps_lightbox(a, b)
            &&& b.editing == !a.editing
            &&& b.status == (if a.editing { Status::Saved } else { Status::Empty })
            &&& act == (if a.editing {
                WindowAction { save_edits: true, reload_editors: true, ..no_action() }
            } else {
                no_action()
            })
        },
        WindowEvent::SaveShortcut => {
            &&& b.overlay == a.overlay && b.renaming_template == a.renaming_template
            &&& b.enlarging == a.enlarging && keeps_searches(a, b) && keeps_lightbox(a, b)
            &&& b.editing == a.editing
            &&& b.status == (if a.editing { Status::Saved } else { a.status })
            &&& act == WindowAction { save_edits: a.editing, ..no_action() }
        },
        WindowEvent::Open(d) => {
            &&& b.overlay == dialog_overlay(d)
            &&& b.renaming_template == a.renaming_template && b.enlarging == a.enlarging
            &&& b.editing == a.editing && b.status == a.status
            &&& keeps_searches(a, b) && keeps_lightbox(a, b)
            &&& act == no_action()
        },
        WindowEvent::OpenNameDialog(_) => {
            &&& b.overlay == Overlay::NameInput
            &&& b.renaming_template == a.renaming_template && b.enlarging == a.enlarging
            &&& b.editing == a.editing && b.status == a.status
            &&& keeps_searches(a, b) && keeps_lightbox(a, b)
            &&& act == no_action()
        },
        WindowEvent::OpenEnlarge => {
            &&& b.overlay == Overlay::Enlarge && b.enlarging && b.editing
            &&& b.renaming_template == a.renaming_template && b.status == a.status
            &&& keeps_searches(a, b) && keeps_lightbox(a, b)
            &&& act == no_action()
        },
        WindowEvent::OpenLightbox { idx, count } => {
            &&& b.renaming_template == a.renaming_template && b.enlarging == a.enlarging
            &&& b.editing == a.editing && b.status == a.status && keeps_searches(a, b)
            &&& if count == 0 {
                b.overlay == a.overlay && keeps_lightbox(a, b) && act == no_action()
            } else {
                let i = if idx < count { idx } else { (count - 1) as usize };
                &&& b.overlay == Overlay::Lightbox
                &&& b.lightbox_count == count && b.lightbox_index == i
                &&& act == WindowAction { show_photo: Some(i), ..no_action() }
            }
        },
        WindowEvent::LightboxStep { forward, count } => {
            &&& b.overlay == a.overlay
            &&& b.renaming_template == a.renaming_template && b.enlarging == a.enlarging
            &&& b.editing == a.editing && b.status == a.status && keeps_searches(a, b)
            &&& if a.overlay != Overlay::Lightbox {
                keeps_lightbox(a, b) && act == no_action()
            } else if count == 0 {
                &&& b.lightbox_count == 0 && b.lightbox_index == 0
                &&& act == WindowAction { drop_lightbox_image: true, ..no_action() }
            } else {
                let i = stepped(a.lightbox_index as int, if forward { 1 } else { -1 }, count as int);
                &&& b.lightbox_count == count && b.lightbox_index == i
                &&& act == WindowAction { show_photo: Some(i as usize), ..no_action() }
            }
        },
        WindowEvent::ItemSearchChanged(q) => {
            &&& b.item_search == q && b.coll_search@ == a.coll_search@
            &&& b.overlay == a.overlay && b.renaming_template == a.renaming_template
            &&& b.enlarging == a.enlarging && b.editing == a.editing && b.status == a.status
            &&& keeps_lightbox(a, b)
            &&& act == WindowAction { clear_item_marks: true, ..no_action() }
        },
        WindowEvent::CollSearchChanged(q) => {
            &&& b.coll_search == q && b.item_search@ == a.item_search@
            &&& b.overlay == a.overlay && b.renaming_template == a.renaming_template
            &&& b.enlarging == a.enlarging && b.editing == a.editing && b.status == a.status
            &&& keeps_lightbox(a, b)
            &&& act == no_action()
        },
        WindowEvent::StartTemplateRename | WindowEvent::CommitTemplateRename => {
            &&& b.renaming_template == (ev is StartTemplateRename)
            &&& b.overlay == a.overlay && b.enlarging == a.enlarging && b.editing == a.editing
            &&& b.status == a.status && keeps_searches(a, b) && keeps_lightbox(a, b)
            &&& act == no_action()
        },
        WindowEvent::TemplatePicked { applied } => {
            &&& b.overlay == Overlay::Closed
            &&& b.status == (if applied { Status::LoadedTemplate } else { a.status })
            &&& b.renaming_template == a.renaming_template && b.enlarging == a.enlarging
            &&& b.editing == a.editing && keeps_searches(a, b) && keeps_lightbox(a, b)
            &&& act == no_action()
        },
    }
}

/// Typing in a search box sets that search to exactly what was typed and
/// leaves the other one alone; only the item search asks for the item
/// check marks to be reset, since the items shown change.
pub proof fn lemma_searches_follow_typing(a: Window, q: String, b1: Window, act1: WindowAction, b2: Window, act2: WindowAction)
    requires
        window_step(a, WindowEvent::ItemSearchChanged(q), b1, act1),
        window_step(a, WindowEvent::CollSearchChanged(q), b2, act2),
    ensures
        b1.item_search@ == q@ && b1.coll_search@ == a.coll_search@,
        b2.coll_search@ == q@ && b2.item_search@ == a.item_search@,
        act1.clear_item_marks && !act2.clear_item_marks,
        b1.overlay == a.overlay && b2.overlay == a.overlay,
{
}

/// Edit mode round trip: entering edit mode saves nothing; leaving it
/// again saves the edits and reloads the editors, and the window is back
/// out of edit mode with the same dialog and searches.
pub proof fn lemma_edit_mode_round_trip(
    a: Window,
    b: Window,
    act1: WindowAction,
    c: Window,
    act2: WindowAction,
)
    requires
        !a.editing,
        window_step(a, WindowEvent::ToggleEdit, b, act1),
        window_step(b, WindowEvent::ToggleEdit, c, act2),
    ensures
        b.editing && !act1.save_edits,
        !c.editing && act2.save_edits && act2.reload_editors,
        c.overlay == a.overlay,
        c.item_search@ == a.item_search@ && c.coll_search@ == a.coll_search@,
        c.status == Status::Saved,
{
}

/// Ctrl+S saves exactly when in edit mode, and never changes the mode.
pub proof fn lemma_save_shortcut_saves_only_when_editing(a: Window, b: Window, act: WindowAction)
    requires
        window_step(a, WindowEvent::SaveShortcut, b, act),
    ensures
        act.save_edits == a.editing,
        b.editing == a.editing,
        b.overlay == a.overlay,
{
}

/// Escape undoes one thing at a time: an open dialog first (keeping the
/// searches); else the searches (clearing both); else the check marks and
/// the anchors. It never changes edit mode.
pub proof fn lemma_escape_unwinds(a: Window, b: Window, act: WindowAction)
    requires
        window_step(a, WindowEvent::Escape, b, act),
    ensures
        b.editing == a.editing,
        b.overlay == Overlay::Closed,
        a.overlay != Overlay::Closed ==> b.item_search@ == a.item_search@ && b.coll_search@
            == a.coll_search@ && !act.clear_item_marks && !act.clear_anchors,
        a.overlay == Overlay::Closed && (a.item_search@.len() > 0 || a.coll_search@.len() > 0)
            ==> b.item_search@.len() == 0 && b.coll_search@.len() == 0 && act.clear_item_marks
            && !act.clear_anchors,
        a.overlay == Overlay::Closed && a.item_search@.len() == 0 && a.coll_search@.len() == 0
            ==> act.clear_coll_marks && act.clear_item_marks && act.clear_anchors,
{
}

/// Closing a dialog saves the edits exactly when it was the enlarged view,
/// and releases the full-size image exactly when it was the lightbox.
pub proof fn lemma_close_overlay(a: Window, b: Window, act: WindowAction)
    requires
        window_step(a, WindowEvent::CloseOverlay, b, act),
    ensures
        b.overlay == Overlay::Closed,
        act.save_edits == (a.overlay == Overlay::Enlarge),
        act.drop_lightbox_image == (a.overlay == Overlay::Lightbox),
        b.editing == a.editing,
{
}

/// Opening the lightbox on an item with photos shows one of its photos: the
/// one clicked, or the last one when the click is past the end.
pub proof fn lemma_lightbox_opens_on_a_photo(
    a: Window,
    idx: usize,
    count: usize,
    b: Window,
    act: WindowAction,
)
    requires
        count > 0,
        window_step(a, WindowEvent::OpenLightbox { idx, count }, b, act),
    ensures
        b.overlay == Overlay::Lightbox,
        b.lightbox_index < count,
        act.show_photo == Some(b.lightbox_index),
        idx < count ==> b.lightbox_index == idx,
        idx >= count ==> b.lightbox_index == count - 1,
{
}

/// In the lightbox, the next arrow and then the previous one come back to
/// the photo shown before, each step showing a photo of the item.
pub proof fn lemma_lightbox_next_then_previous(
    a: Window,
    count: usize,
    b: Window,
    act1: WindowAction,
    c: Window,
    act2: WindowAction,
)
    requires
        a.overlay == Overlay::Lightbox,
        a.lightbox_index < count,
        window_step(a, WindowEvent::LightboxStep { forward: true, count }, b, act1),
        window_step(b, WindowEvent::LightboxStep { forward: false, count }, c, act2),
    ensures
        b.lightbox_index < count,
        act1.show_photo == Some(b.lightbox_index),
        c.lightbox_index == a.lightbox_index,
        act2.show_photo == Some(a.lightbox_index),
{
    lemma_lightbox_step_back_and_forth(a.lightbox_index as int, count as int);
}

/// Moves the window on by one event and says what the caller must do next.
/// The lightbox index arithmetic is done in `i32`, so its index and photo
/// count stay within that range.
pub fn step(w: &mut Window, ev: WindowEvent) -> (act: WindowAction)
    requires
        ev matches WindowEvent::LightboxStep { count, .. } ==> count <= i32::MAX
            && old(w).lightbox_index < i32::MAX,
    ensures
        window_step(*old(w), ev, *final(w), act),
{
    match ev {
        WindowEvent::CloseOverlay => {
            let was = w.overlay;
            if was == Overlay::Enlarge {
                w.enlarging = false;
            }
            w.overlay = Overlay::Closed;
            w.renaming_template = false;
            WindowAction {
                save_edits: was == Overlay::Enlarge,
                drop_lightbox_image: was == Overlay::Lightbox,
                ..nothing()
            }
        },
        WindowEvent::Escape => {
            let was = w.overlay;
            if was != Overlay::Closed {
                w.overlay = Overlay::Closed;
                w.renaming_template = false;
                WindowAction { drop_lightbox_image: was == Overlay::Lightbox, ..nothing() }
            } else if w.item_search.as_str().unicode_len() > 0
                || w.coll_search.as_str().unicode_len() > 0 {
                w.item_search = String::new();
                w.coll_search = String::new();
                WindowAction { clear_item_marks: true, ..nothing() }
            } else {
                WindowAction {
                    clear_coll_marks: true,
                    clear_item_marks: true,
                    clear_anchors: true,
                    ..nothing()
                }
            }
        },
        WindowEvent::ToggleEdit => {
            if w.editing {
                w.editing = false;
                w.status = Status::Saved;
                WindowAction { save_edits: true, reload_editors: true, ..nothing() }
            } else {
                w.editing = true;
                w.status = Status::Empty;
                nothing()
            }
        },
        WindowEvent::SaveShortcut => {
            if w.editing {
                w.status = Status::Saved;
            }
            WindowAction { save_edits: w.editing, ..nothing() }
        },
        WindowEvent::Open(d) => {
            w.overlay = match d {
                Dialog::Settings => Overlay::Settings,
                Dialog::IconPicker => Overlay::IconPicker,
                Dialog::TemplatePicker => Overlay::TemplatePicker,
                Dialog::ContextMenu => Overlay::ContextMenu,
            };
            nothing()
        },
        WindowEvent::OpenNameDialog(p) => {
            w.name_purpose = Some(p);
            w.overlay = Overlay::NameInput;
            nothing()
        },
        WindowEvent::OpenEnlarge => {
            w.enlarging = true;
            w.editing = true;
            w.overlay = Overlay::Enlarge;
            nothing()
        },
        WindowEvent::OpenLightbox { idx, count } => {
            if count == 0 {
                return nothing();
            }
            let i: usize = if idx < count {
                idx
            } else {
                count - 1
            };
            w.lightbox_count = count;
            w.lightbox_index = i;
            w.overlay = Overlay::Lightbox;
            WindowAction { show_photo: Some(i), ..nothing() }
        },
        WindowEvent::LightboxStep { forward, count } => {
            if w.overlay != Overlay::Lightbox {
                return nothing();
            }
            w.lightbox_count = count;
            if count == 0 {
                w.lightbox_index = 0;
                return WindowAction { drop_lightbox_image: true, ..nothing() };
            }
            let dir: i32 = if forward {
                1
            } else {
                -1
            };
            let i = lightbox_step(w.lightbox_index, dir, count);
            w.lightbox_index = i;
            WindowAction { show_photo: Some(i), ..nothing() }
        },
        WindowEvent::ItemSearchChanged(q) => {
            w.item_search = q;
            WindowAction { clear_item_marks: true, ..nothing() }
        },
        WindowEvent::CollSearchChanged(q) => {
            w.coll_search = q;
            nothing()
        },
        WindowEvent::StartTemplateRename => {
            w.renaming_template = true;
            nothing()
        },
        WindowEvent::CommitTemplateRename => {
            w.renaming_template = false;
            nothing()
        },
        WindowEvent::TemplatePicked { applied } => {
            if applied {
                w.status = Status::LoadedTemplate;
            }
            w.overlay = Overlay::Closed;
            nothing()
        },
    }
}

} // verus!
