use fastnote::color::Color;
use fastnote::order::{contains_text, merge_order, position_of, reconcile_order};
use fastnote::tree::{FastnoteFile, FastnoteFolder, FastnotePage, FastnoteProject, FolderEntry, ItemType, Manifest};
use fastnote::tree_order::{is_shown_entry, item_paths, sorted_entries, TreeItem};

fn s(v: &[&str]) -> Vec<String> {
    v.iter().map(|x| x.to_string()).collect()
}

fn manifest(t: ItemType, name: &str, order: &[&str]) -> Manifest {
    Manifest {
        item_type: t,
        name: name.to_string(),
        color: Color { r: 1, g: 2, b: 3, a: 255 },
        is_open: true,
        order: s(order),
    }
}

fn page(dir: &str) -> FastnotePage {
    FastnotePage {
        path: format!("/nb/f/{}", dir),
        dir_name: dir.to_string(),
        manifest: manifest(ItemType::Page, dir, &[]),
    }
}

fn file(dir: &str, pages: &[&str], order: &[&str]) -> FastnoteFile {
    FastnoteFile {
        path: format!("/nb/{}", dir),
        dir_name: dir.to_string(),
        manifest: manifest(ItemType::File, dir, order),
        children: pages.iter().map(|p| page(p)).collect(),
    }
}

fn page_dirs(f: &FastnoteFile) -> Vec<String> {
    f.children.iter().map(|p| p.dir_name.clone()).collect()
}

#[test]
fn position_and_membership() {
    let v = s(&["a", "b", "a"]);
    assert_eq!(position_of(&v, &"a".to_string()), Some(0));
    assert_eq!(position_of(&v, &"b".to_string()), Some(1));
    assert_eq!(position_of(&v, &"z".to_string()), None);
    assert!(contains_text(&v, &"b".to_string()));
    assert!(!contains_text(&v, &"c".to_string()));
}

#[test]
fn merge_puts_saved_names_first_then_new_ones() {
    // children on disk: c, a, d, b ; saved order: b, x, a
    let names = s(&["c", "a", "d", "b"]);
    let order = s(&["b", "x", "a"]);
    assert_eq!(merge_order(&names, &order), vec![3, 1, 0, 2]);
}

#[test]
fn reconcile_uses_present_order_when_nothing_saved() {
    let names = s(&["p2", "p1"]);
    assert_eq!(reconcile_order(&names, &vec![]), vec![0, 1]);
    assert_eq!(reconcile_order(&names, &s(&["p1"])), vec![1, 0]);
}

#[test]
fn repeated_saved_name_repeats_the_child() {
    let names = s(&["a", "b"]);
    assert_eq!(merge_order(&names, &s(&["a", "a"])), vec![0, 0, 1]);
}

#[test]
fn file_pages_follow_the_saved_order() {
    let mut f = file("Limits", &["Page_2", "Page_1", "Page_3"], &["Page_1", "Gone", "Page_2"]);
    f.update_page_order();
    assert_eq!(page_dirs(&f), s(&["Page_1", "Page_2", "Page_3"]));
    assert_eq!(f.manifest.order, s(&["Page_1", "Page_2", "Page_3"]));
    assert_eq!(f.path, "/nb/Limits");
    assert_eq!(f.manifest.name, "Limits");
}

#[test]
fn file_order_is_stable() {
    let mut f = file("Limits", &["b", "a", "c"], &["c", "a"]);
    f.update_page_order();
    let once = page_dirs(&f);
    let once_order = f.manifest.order.clone();
    f.update_page_order();
    assert_eq!(page_dirs(&f), once);
    assert_eq!(f.manifest.order, once_order);
}

#[test]
fn empty_saved_order_takes_the_present_order() {
    let mut f = file("F", &["y", "x"], &[]);
    f.update_page_order();
    assert_eq!(page_dirs(&f), s(&["y", "x"]));
    assert_eq!(f.manifest.order, s(&["y", "x"]));
}

#[test]
fn folder_and_project_children_follow_the_saved_order() {
    let a = FolderEntry::File(file("A", &[], &[]));
    let b = FolderEntry::Folder(FastnoteFolder {
        path: "/nb/B".to_string(),
        dir_name: "B".to_string(),
        manifest: manifest(ItemType::Folder, "B", &[]),
        children: vec![],
    });
    let mut project = FastnoteProject {
        path: "/nb".to_string(),
        manifest: manifest(ItemType::Project, "Notebook", &["B"]),
        children: vec![a, b],
    };
    project.update_page_order();
    let names: Vec<String> = project.children.iter().map(|c| c.get_path()).collect();
    assert_eq!(names, s(&["/nb/B", "/nb/A"]));
    assert_eq!(project.manifest.order, s(&["B", "A"]));

    let mut folder = FastnoteFolder {
        path: "/nb/Math".to_string(),
        dir_name: "Math".to_string(),
        manifest: manifest(ItemType::Folder, "Math", &["A", "Missing"]),
        children: project.children.drain(..).collect(),
    };
    folder.update_page_order();
    let names: Vec<String> = folder.children.iter().map(|c| c.get_path()).collect();
    assert_eq!(names, s(&["/nb/A", "/nb/B"]));
    assert_eq!(folder.manifest.order, s(&["A", "B"]));
}

#[test]
fn copies_are_equal_in_content() {
    let f = file("F", &["a", "b"], &["b"]);
    let c = f.copied();
    assert_eq!(page_dirs(&c), page_dirs(&f));
    assert_eq!(c.manifest.order, f.manifest.order);
    let e = FolderEntry::File(f);
    assert_eq!(e.copied().get_path(), "/nb/F");
}

#[test]
fn saved_order_of_a_directory() {
    let all = s(&["/d/x", "/d/y", "/d/z"]);
    let order = s(&["/d/z", "/d/gone", "/d/x"]);
    let items = sorted_entries(&all, &vec![true, false, true], &order);
    assert_eq!(
        items,
        vec![
            TreeItem { path: "/d/z".to_string(), is_dir: true },
            TreeItem { path: "/d/x".to_string(), is_dir: true },
            TreeItem { path: "/d/y".to_string(), is_dir: false },
        ]
    );
    assert_eq!(item_paths(&items), s(&["/d/z", "/d/x", "/d/y"]));
}

#[test]
fn hidden_entries_are_not_shown() {
    assert!(!is_shown_entry(&Some(".fastnote_order".to_string())));
    assert!(is_shown_entry(&Some("Math".to_string())));
    assert!(!is_shown_entry(&None));
}

#[test]
fn saved_order_compares_paths_by_components() {
    let all = s(&["/d/x", "/d/y"]);
    let order = s(&["/d//y/", "/d/./x"]);
    let items = sorted_entries(&all, &vec![true, false], &order);
    assert_eq!(
        items,
        vec![
            TreeItem { path: "/d//y/".to_string(), is_dir: false },
            TreeItem { path: "/d/./x".to_string(), is_dir: true },
        ]
    );
}
