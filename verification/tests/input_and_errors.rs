use fastnote::color::Color;
use fastnote::errors::{
    active_after, cleanup_errors, push_error, push_instant_error, push_minute_error, retain_active, DisplayError,
    MINUTE_MS,
};
use fastnote::flat::FlatNode;
use fastnote::modal::{
    create_fastnote_file, create_fastnote_folder, delete_fastnote, rename_fastnote, ModalWindow, NameCheck,
    NewProjectModalWindow,
};
use fastnote::palette::ColorPalette;
use fastnote::projects::{item_is_open, OpenedProjectsManager};
use fastnote::stylet::{CursorIcon, StyletEvent, StyletManager, ToolType, TouchAction, TouchPlace};
use fastnote::tree::{FastnoteFile, FastnoteFolder, FastnotePage, FastnoteProject, FolderEntry, ItemType, Manifest};

type Manager = StyletManager<u8, (i32, i32)>;

fn tip(down: bool, tool_type: ToolType) -> StyletEvent<u8> {
    StyletEvent::Tip { sample: 1, down, tool_type }
}

fn axis(tool_type: ToolType) -> StyletEvent<u8> {
    StyletEvent::Axis { sample: 2, tool_type }
}

#[test]
fn tip_down_draws_nothing_but_the_next_move_does() {
    let mut m: Manager = StyletManager::new(0);
    let r = m.manage_stylet_event(tip(true, ToolType::Pen), TouchPlace::Inside((1, 1)), true, false);
    assert_eq!(r.touch, TouchAction::Nothing);
    assert_eq!(r.cursor, Some(CursorIcon::Hidden));
    assert!(m.stylet.pressed);
    let r = m.manage_stylet_event(axis(ToolType::Pen), TouchPlace::Inside((3, 4)), true, false);
    assert_eq!(r.touch, TouchAction::AddPoint((3, 4)));
    assert_eq!(m.stylet.sample, 2);
    let r = m.manage_stylet_event(tip(false, ToolType::Pen), TouchPlace::Inside((3, 4)), true, false);
    assert!(r.save_strokes);
    assert_eq!(r.cursor, Some(CursorIcon::Default));
    assert!(!m.stylet.pressed);
    let r = m.manage_stylet_event(axis(ToolType::Pen), TouchPlace::Inside((5, 5)), true, false);
    assert_eq!(r.touch, TouchAction::Nothing);
}

#[test]
fn touches_outside_or_without_a_page() {
    let mut m: Manager = StyletManager::new(0);
    m.manage_stylet_event(tip(true, ToolType::Pen), TouchPlace::Outside, true, false);
    assert_eq!(m.touch_gpu(TouchPlace::Outside, true, ToolType::Pen, false), TouchAction::Outside);
    assert_eq!(m.touch_gpu(TouchPlace::NoCanvas, true, ToolType::Pen, false), TouchAction::Nothing);
    assert_eq!(m.touch_gpu(TouchPlace::Inside((0, 0)), false, ToolType::Pen, false), TouchAction::Nothing);
    assert_eq!(m.touch_gpu(TouchPlace::Inside((0, 0)), true, ToolType::Other, false), TouchAction::UnknownTool);
}

#[test]
fn eraser_skips_when_it_has_not_moved() {
    let mut m: Manager = StyletManager::new(0);
    m.manage_stylet_event(tip(true, ToolType::Eraser), TouchPlace::Inside((0, 0)), true, false);
    // the first erase happens even when "near", as nothing was erased before
    assert_eq!(m.touch_gpu(TouchPlace::Inside((8, 8)), true, ToolType::Eraser, true), TouchAction::Erase((8, 8)));
    assert_eq!(m.last_erase_at_pos, Some((8, 8)));
    assert_eq!(m.touch_gpu(TouchPlace::Inside((8, 9)), true, ToolType::Eraser, true), TouchAction::SkipErase);
    assert_eq!(m.last_erase_at_pos, Some((8, 8)));
    assert_eq!(m.touch_gpu(TouchPlace::Inside((20, 9)), true, ToolType::Eraser, false), TouchAction::Erase((20, 9)));
    assert_eq!(m.touch_gpu(TouchPlace::Inside((21, 9)), true, ToolType::Pen, true), TouchAction::AddPoint((21, 9)));
    assert_eq!(m.last_erase_at_pos, None);
}

#[test]
fn proximity_and_buttons_change_the_stylet_only() {
    let mut m: Manager = StyletManager::new(0);
    let r = m.manage_stylet_event(
        StyletEvent::Proximity { sample: 5, entering: true, tool_type: ToolType::Eraser },
        TouchPlace::Inside((0, 0)),
        true,
        false,
    );
    assert_eq!(r.touch, TouchAction::Nothing);
    assert_eq!(r.cursor, None);
    assert!(m.stylet.in_proximity);
    assert_eq!(m.stylet.sample, 5);
    assert_eq!(m.stylet.tool_type, ToolType::Eraser);
    m.manage_stylet_event(StyletEvent::Button { tool_type: ToolType::Pen }, TouchPlace::NoCanvas, true, false);
    assert_eq!(m.stylet.tool_type, ToolType::Pen);
    assert_eq!(m.stylet.sample, 5);
}

#[test]
fn errors_expire() {
    assert!(active_after(59_999, MINUTE_MS));
    assert!(!active_after(60_000, MINUTE_MS));
    assert!(!active_after(0, 0));
    let mut errors: Vec<DisplayError> = vec![];
    push_minute_error(&mut errors, "a".to_string());
    push_instant_error(&mut errors, "b".to_string());
    push_error(&mut errors, "c".to_string(), 500);
    assert_eq!(errors.len(), 3);
    assert_eq!(errors[0].duration_ms, 60_000);
    assert_eq!(errors[1].duration_ms, 0);
    for e in &errors {
        assert_eq!(e.color, Color { r: 180, g: 20, b: 20, a: 255 });
    }
    assert!(!errors[1].is_active());
    retain_active(&mut errors, &vec![10, 10, 600]);
    let left: Vec<&str> = errors.iter().map(|e| e.message.as_str()).collect();
    assert_eq!(left, vec!["a"]);
}

#[test]
fn cleanup_drops_instant_errors() {
    let mut errors: Vec<DisplayError> = vec![];
    push_instant_error(&mut errors, "gone".to_string());
    push_minute_error(&mut errors, "stays".to_string());
    cleanup_errors(&mut errors);
    assert_eq!(errors.len(), 1);
    assert_eq!(errors[0].message, "stays");
}

#[test]
fn palette_selects_and_adds_pens() {
    let mut p: ColorPalette<u32> = ColorPalette::new(0);
    p.add_pen_to_palette(10);
    p.add_pen_to_palette(20);
    p.select_pen(1);
    assert_eq!(p.pen, 20);
    assert_eq!(p.palette, vec![10, 20]);
    assert!(!p.is_editing);
    p.toggle_editing();
    assert!(p.is_editing);
    p.toggle_editing();
    assert!(!p.is_editing);
}

#[test]
fn tree_menu_opens_dialogs() {
    let mut m = ModalWindow::Closed;
    create_fastnote_folder("/nb/Math".to_string(), &mut m);
    assert!(matches!(&m, ModalWindow::NewFolder(w) if w.parent == "/nb/Math" && w.folder_name.is_empty()));
    create_fastnote_file("/nb".to_string(), &mut m);
    assert!(matches!(&m, ModalWindow::NewFile(w) if w.parent == "/nb" && w.display_name.is_empty()));
    rename_fastnote("/nb/Math".to_string(), &mut m);
    assert!(matches!(&m, ModalWindow::Rename(w) if w.old_path == "/nb/Math" && w.new_name.is_empty()));
    delete_fastnote("/nb/Math".to_string(), &mut m);
    assert!(matches!(&m, ModalWindow::NewFolder(w) if w.parent == "/nb/Math"));
    let d = NewProjectModalWindow::for_folder("/home/me".to_string());
    assert_eq!(d.path, "/home/me");
    assert!(d.name.is_empty());
    assert_eq!(d.color, Color::black());
}

#[test]
fn name_check_messages() {
    assert_eq!(NameCheck::Invalid.message(), Some("Caractère non valide dans le nom de fichier"));
    assert_eq!(NameCheck::AlreadyExists.message(), Some("Un fichier portant ce nom existe déjà"));
    assert_eq!(NameCheck::Empty.message(), None);
    assert_eq!(NameCheck::Available.message(), None);
}

fn manifest(t: ItemType, name: &str, open: bool) -> Manifest {
    Manifest { item_type: t, name: name.to_string(), color: Color::black(), is_open: open, order: vec![] }
}

fn line(path: &str, kind: ItemType) -> FlatNode {
    FlatNode { path: path.to_string(), name: String::new(), kind, depth: 0, is_open: false }
}

#[test]
fn tree_lines_know_whether_they_are_open() {
    let projects = vec![
        FastnoteProject { path: "/a".to_string(), manifest: manifest(ItemType::Project, "A", true), children: vec![] },
        FastnoteProject {
            path: "/b".to_string(),
            manifest: manifest(ItemType::Project, "B", false),
            children: vec![FolderEntry::Folder(FastnoteFolder {
                path: "/b/f".to_string(),
                dir_name: "f".to_string(),
                manifest: manifest(ItemType::Folder, "f", true),
                children: vec![],
            })],
        },
    ];
    assert_eq!(item_is_open(&projects, &line("/a", ItemType::Project)), Some(true));
    assert_eq!(item_is_open(&projects, &line("/b", ItemType::Project)), Some(false));
    assert_eq!(item_is_open(&projects, &line("/b/f", ItemType::Folder)), Some(true));
    assert_eq!(item_is_open(&projects, &line("/c", ItemType::Project)), None);
    assert_eq!(item_is_open(&projects, &line("/b/g", ItemType::Folder)), None);
    assert_eq!(item_is_open(&projects, &line("/b/f/x", ItemType::File)), Some(false));
}

#[test]
fn page_list_of_a_file() {
    let page = |p: &str, d: &str| FastnotePage {
        path: p.to_string(),
        dir_name: d.to_string(),
        manifest: manifest(ItemType::Page, d, false),
    };
    let f = FastnoteFile {
        path: "/nb/F".to_string(),
        dir_name: "F".to_string(),
        manifest: manifest(ItemType::File, "F", false),
        children: vec![page("/nb/F/p1", "p1"), page("/nb/F/p2", "p2")],
    };
    assert_eq!(
        f.page_entries(),
        vec![("/nb/F/p1".to_string(), "p1".to_string()), ("/nb/F/p2".to_string(), "p2".to_string())]
    );
}

#[test]
fn created_project_goes_in_the_chosen_folder() {
    let mut m = OpenedProjectsManager::new(vec![]);
    let mut d = NewProjectModalWindow::for_folder("/home/me".to_string());
    d.name = "Notes".to_string();
    m.user_created_project(&d);
    assert_eq!(m.projects.len(), 1);
    assert_eq!(m.projects[0].path, "/home/me/Notes");
    assert_eq!(m.projects[0].name, "Notes");
    assert_eq!(m.projects[0].color, Color::black());
}
