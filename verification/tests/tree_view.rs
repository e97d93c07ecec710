use fastnote::color::Color;
use fastnote::flat::{capped_height, flatten_folder_entries, flatten_project, project_height_fits, FlatNode};
use fastnote::navigate::{find_file, find_folder, toggle_folder_open};
use fastnote::projects::{find_project, toggle_item_open, ToggleOutcome};
use fastnote::tree::{FastnoteFile, FastnoteFolder, FastnoteProject, FolderEntry, ItemType, Manifest};

fn manifest(t: ItemType, name: &str, open: bool) -> Manifest {
    Manifest { item_type: t, name: name.to_string(), color: Color { r: 0, g: 0, b: 0, a: 255 }, is_open: open, order: vec![] }
}

fn file(path: &str, name: &str) -> FolderEntry {
    FolderEntry::File(FastnoteFile {
        path: path.to_string(),
        dir_name: name.to_string(),
        manifest: manifest(ItemType::File, name, false),
        children: vec![],
    })
}

fn folder(path: &str, name: &str, open: bool, children: Vec<FolderEntry>) -> FolderEntry {
    FolderEntry::Folder(FastnoteFolder {
        path: path.to_string(),
        dir_name: name.to_string(),
        manifest: manifest(ItemType::Folder, name, open),
        children,
    })
}

fn notebook(open: bool) -> FastnoteProject {
    FastnoteProject {
        path: "/nb".to_string(),
        manifest: manifest(ItemType::Project, "Notebook", open),
        children: vec![
            folder("/nb/Math", "Math", true, vec![file("/nb/Math/Limits", "Limits"), folder("/nb/Math/Old", "Old", false, vec![file("/nb/Math/Old/X", "X")])]),
            file("/nb/Physics", "Physics"),
        ],
    }
}

fn lines(v: &[FlatNode]) -> Vec<(String, ItemType, usize, bool)> {
    v.iter().map(|n| (n.name.clone(), n.kind, n.depth, n.is_open)).collect()
}

#[test]
fn open_project_shows_open_folders_contents() {
    let mut out = vec![];
    flatten_project(&notebook(true), &mut out);
    assert_eq!(
        lines(&out),
        vec![
            ("Notebook".to_string(), ItemType::Project, 0, true),
            ("Math".to_string(), ItemType::Folder, 1, true),
            ("Limits".to_string(), ItemType::File, 2, false),
            ("Old".to_string(), ItemType::Folder, 2, false),
            ("Physics".to_string(), ItemType::File, 1, false),
        ]
    );
    assert_eq!(out[2].path, "/nb/Math/Limits");
}

#[test]
fn closed_project_shows_one_line() {
    let mut out = vec![];
    flatten_project(&notebook(false), &mut out);
    assert_eq!(lines(&out), vec![("Notebook".to_string(), ItemType::Project, 0, false)]);
}

#[test]
fn flatten_appends_after_existing_lines() {
    let nb = notebook(true);
    let mut out = vec![];
    flatten_project(&nb, &mut out);
    flatten_folder_entries(&nb.children, 5, &mut out);
    assert_eq!(out.len(), 9);
    assert_eq!(out[5].depth, 5);
    assert_eq!(out[6].depth, 6);
}

#[test]
fn toggling_a_folder_twice_restores_it() {
    let mut nb = notebook(true);
    assert!(toggle_folder_open(&mut nb.children, &"/nb/Math/Old".to_string()));
    assert!(find_folder(&nb.children, &"/nb/Math/Old".to_string()).unwrap().manifest.is_open);
    assert!(toggle_folder_open(&mut nb.children, &"/nb/Math/Old".to_string()));
    assert!(!find_folder(&nb.children, &"/nb/Math/Old".to_string()).unwrap().manifest.is_open);
    assert!(!toggle_folder_open(&mut nb.children, &"/nb/Nowhere".to_string()));
}

#[test]
fn find_folder_and_file() {
    let nb = notebook(true);
    assert_eq!(find_folder(&nb.children, &"/nb/Math".to_string()).unwrap().dir_name, "Math");
    assert!(find_folder(&nb.children, &"/nb/Physics".to_string()).is_none());
    assert_eq!(find_file(&nb.children, &"/nb/Math/Old/X".to_string()).unwrap().dir_name, "X");
    assert!(find_file(&nb.children, &"/nb/Math".to_string()).is_none());
}

fn item(kind: ItemType, path: &str) -> FlatNode {
    FlatNode { path: path.to_string(), name: String::new(), kind, depth: 0, is_open: false }
}

#[test]
fn clicking_tree_lines() {
    let mut projects = vec![notebook(true)];
    assert_eq!(find_project(&projects, &"/nb".to_string()), Some(0));
    assert_eq!(find_project(&projects, &"/other".to_string()), None);
    assert_eq!(toggle_item_open(&mut projects, &item(ItemType::Project, "/nb")), ToggleOutcome::Toggled("/nb".to_string()));
    assert!(!projects[0].manifest.is_open);
    assert_eq!(toggle_item_open(&mut projects, &item(ItemType::Folder, "/nb/Math")), ToggleOutcome::Toggled("/nb/Math".to_string()));
    assert!(!find_folder(&projects[0].children, &"/nb/Math".to_string()).unwrap().manifest.is_open);
    assert_eq!(toggle_item_open(&mut projects, &item(ItemType::Folder, "/nb/None")), ToggleOutcome::NotFound);
    assert_eq!(toggle_item_open(&mut projects, &item(ItemType::Project, "/none")), ToggleOutcome::NotFound);
    assert_eq!(toggle_item_open(&mut projects, &item(ItemType::File, "/nb/Physics")), ToggleOutcome::OpenFile("/nb/Physics".to_string()));
    assert_eq!(toggle_item_open(&mut projects, &item(ItemType::Page, "/nb/p")), ToggleOutcome::Nothing);
}

#[test]
fn lookups_take_any_spelling_of_a_path() {
    let nb = notebook(true);
    assert_eq!(find_folder(&nb.children, &"/nb//Math/".to_string()).unwrap().path, "/nb/Math");
    assert_eq!(find_file(&nb.children, &"/nb/./Physics".to_string()).unwrap().path, "/nb/Physics");
    let projects = vec![notebook(true)];
    assert_eq!(find_project(&projects, &"/nb/".to_string()), Some(0));
}

#[test]
fn tree_heights() {
    let nb = notebook(true);
    // Math (1) > Old (2) > X (3)
    assert_eq!(capped_height(&nb.children), 3);
    assert_eq!(capped_height(&vec![]), 0);
    assert!(project_height_fits(&nb));
}
