use fastnote::names::same_path;
use fastnote::modal::{
    classify_new_name, ModalWindow, NameCheck, NewFileModalWindow, NewFolderModalWindow,
    NewPageModalWindow, NewProjectModalWindow, RenameModalWindow,
};
use fastnote::color::Color;
use fastnote::names::{folder_exists, is_valid_folder_name, join_path};
use fastnote::state::{set_menu, DebugInfo, MenuMode};

#[test]
fn valid_folder_names() {
    assert!(is_valid_folder_name("Math"));
    assert!(is_valid_folder_name("Page 1"));
    assert!(is_valid_folder_name("été"));
}

#[test]
fn empty_folder_name_is_invalid() {
    assert!(!is_valid_folder_name(""));
}

#[test]
fn each_forbidden_character_is_refused() {
    for c in ['/', '\\', ':', '*', '?', '"', '<', '>', '|'] {
        let name = format!("a{}b", c);
        assert!(!is_valid_folder_name(&name), "{}", name);
    }
}

#[test]
fn join_adds_one_separator() {
    assert_eq!(join_path("/home/u/notes", "Math"), "/home/u/notes/Math");
    assert_eq!(join_path("/home/u/notes/", "Math"), "/home/u/notes/Math");
    assert_eq!(join_path("", "Math"), "Math");
    assert_eq!(join_path("/home", "/etc"), "/etc");
}

#[test]
fn folder_exists_looks_on_disk() {
    assert!(folder_exists("/", "tmp"));
    assert!(!folder_exists("/", "fastnote_no_such_entry_here"));
}

#[test]
fn menu_labels() {
    assert_eq!(MenuMode::File.as_str(), "File");
    assert_eq!(MenuMode::Home.as_str(), "Home");
    assert_eq!(MenuMode::Insert.as_str(), "Insert");
    assert_eq!(MenuMode::Draw.as_str(), "Draw");
    assert_eq!(MenuMode::History.as_str(), "History");
    assert_eq!(MenuMode::View.as_str(), "View");
    assert_eq!(MenuMode::Edition.as_str(), "Edition");
    assert_eq!(MenuMode::default(), MenuMode::File);
}

#[test]
fn picking_edition_opens_the_editor_and_keeps_the_menu() {
    assert_eq!(set_menu(MenuMode::Draw, MenuMode::Edition), (MenuMode::Draw, true));
    assert_eq!(set_menu(MenuMode::Draw, MenuMode::Home), (MenuMode::Home, false));
}

#[test]
fn debug_info_keeps_lines_in_order() {
    let mut d = DebugInfo::default();
    d.push("time 1".to_string());
    d.push("nbr_points 3".to_string());
    assert_eq!(d.lines, vec!["time 1".to_string(), "nbr_points 3".to_string()]);
}

#[test]
fn dialogs_start_empty() {
    let f = NewFileModalWindow::new("/p".to_string());
    assert_eq!(f.parent, "/p");
    assert!(f.folder_name.is_empty() && f.display_name.is_empty());
    let d = NewFolderModalWindow::new("/q".to_string());
    assert_eq!(d.parent, "/q");
    assert!(d.folder_name.is_empty() && d.display_name.is_empty());
    let p = NewPageModalWindow::new("/r".to_string());
    assert_eq!(p.parent, "/r");
    assert!(p.folder_name.is_empty() && p.display_name.is_empty());
    let r = RenameModalWindow::new("/s/t".to_string());
    assert_eq!(r.old_path, "/s/t");
    assert!(r.new_name.is_empty());
    let n = NewProjectModalWindow::default();
    assert_eq!(n.color, Color { r: 0, g: 0, b: 255, a: 255 });
    assert_eq!(NewFileModalWindow::default().parent, "");
    assert_eq!(NewFolderModalWindow::default().parent, "");
    assert_eq!(RenameModalWindow::default().old_path, "");
}

#[test]
fn taking_a_dialog_leaves_taken_and_restore_gives_it_back() {
    let mut slot = ModalWindow::Rename(RenameModalWindow::new("/a".to_string()));
    let taken = slot.take();
    assert_eq!(slot, ModalWindow::Taken);
    slot.restore(taken);
    assert_eq!(slot, ModalWindow::Rename(RenameModalWindow::new("/a".to_string())));
}

#[test]
fn restore_keeps_a_dialog_opened_while_drawing() {
    let mut slot = ModalWindow::NewFile(NewFileModalWindow::new("/a".to_string()));
    let taken = slot.take();
    slot = ModalWindow::Closed;
    slot.restore(taken);
    assert_eq!(slot, ModalWindow::Closed);
}

#[test]
fn name_checks_and_messages() {
    assert_eq!(classify_new_name("", false), NameCheck::Empty);
    assert_eq!(classify_new_name("a:b", false), NameCheck::Invalid);
    assert_eq!(classify_new_name("ab", true), NameCheck::AlreadyExists);
    assert_eq!(classify_new_name("ab", false), NameCheck::Available);
    assert_eq!(NameCheck::Invalid.message(), Some("Caractère non valide dans le nom de fichier"));
    assert_eq!(NameCheck::AlreadyExists.message(), Some("Un fichier portant ce nom existe déjà"));
    assert_eq!(NameCheck::Empty.message(), None);
    assert_eq!(NameCheck::Available.message(), None);
}

#[test]
fn paths_compare_by_components() {
    assert!(same_path("a/b", "a//b"));
    assert!(same_path("a/b/", "a/b"));
    assert!(same_path("/a/./b", "/a/b"));
    assert!(same_path("a/b/.", "a/b"));
    assert!(!same_path("./a", "a"));
    assert!(!same_path("/a", "a"));
    assert!(!same_path("a/../b", "b"));
    assert!(!same_path("a/b", "a/c"));
    assert!(same_path("", ""));
}
