use fastnote::backup::{backup_date, latest_backup_date, should_backup_today, strip_zip_suffix, BackupDate};
use fastnote::color::{chunk_color, color_to_rgb, Color};
use fastnote::create::{entry_load_for, new_file_in, new_folder_in, new_page_in, page_load_for, page_subfolders, EntryLoad, PageLoad};
use fastnote::fingers::{Gesture, UserInputs};
use fastnote::projects::{OpenedProjectsManager, UserProject};
use fastnote::strokes::{keep_endpoints, needs_simplifying, subdivision_for};
use fastnote::tree::{FastnoteProject, ItemType};

fn date(year: i32, month: u32, day: u32) -> BackupDate {
    BackupDate { year, month, day }
}

#[test]
fn backup_names() {
    assert_eq!(strip_zip_suffix("2026-09-12.zip"), Some("2026-09-12".to_string()));
    assert_eq!(strip_zip_suffix("2026-09-12.tar.gz"), None);
    assert_eq!(strip_zip_suffix(".zip"), Some(String::new()));
    assert_eq!(backup_date("2026-09-12.zip"), Some(date(2026, 9, 12)));
    assert_eq!(backup_date("2026-02-30.zip"), None);
    assert_eq!(backup_date("notes.zip"), None);
}

#[test]
fn latest_backup_is_the_latest_date() {
    let names: Vec<String> = ["2025-12-31.zip", "junk", "2026-01-02.zip", "2026-01-01.zip", "2027-01-01.tar.gz"]
        .iter()
        .map(|s| s.to_string())
        .collect();
    assert_eq!(latest_backup_date(&names), Some(date(2026, 1, 2)));
    assert_eq!(latest_backup_date(&vec![]), None);
}

#[test]
fn backup_is_due_unless_made_today() {
    assert!(should_backup_today(None, date(2026, 1, 1)));
    assert!(should_backup_today(Some(date(2025, 12, 31)), date(2026, 1, 1)));
    assert!(!should_backup_today(Some(date(2026, 1, 1)), date(2026, 1, 1)));
}

#[test]
fn colors_for_the_gpu() {
    assert_eq!(color_to_rgb(&Color { r: 0x12, g: 0x34, b: 0x56, a: 7 }), 0x123456FF);
    assert_eq!(color_to_rgb(&Color::black()), 0x000000FF);
    assert_eq!(Color::from_rgb(1, 2, 3), Color { r: 1, g: 2, b: 3, a: 255 });
}

#[test]
fn chunk_colors() {
    // hash 0 picks the first color, black
    assert_eq!(chunk_color(0, 0, 0), Color { r: 0, g: 0, b: 0, a: 255 });
    // rx = 1: hash 73856093, and 73856093 % 11 == 3: green
    assert_eq!(chunk_color(1, 0, 0), Color { r: 0, g: 255, b: 0, a: 255 });
}

#[test]
fn fingers_come_and_go() {
    let mut f: UserInputs<(i32, i32)> = UserInputs::default();
    f.finger_start(7, (0, 0));
    f.finger_start(9, (5, 5));
    assert_eq!(f.nbr_finger(), 2);
    assert_eq!(f.position_of(9), Some(1));
    f.set_pos(1, (6, 6));
    assert_eq!(f.fingers[1].pos, (6, 6));
    f.finger_end(7);
    assert_eq!(f.nbr_finger(), 1);
    assert_eq!(f.fingers[0].id, 9);
    assert_eq!(f.position_of(7), None);
}

#[test]
fn simplified_strokes_keep_their_ends() {
    let points = [0, 1, 2, 3, 4, 5];
    // simplified middle of [1, 2, 3, 4]: keeps 1, 3, 4
    assert_eq!(keep_endpoints(&points, vec![1, 3, 4]), vec![0, 1, 3, 4, 5]);
    assert_eq!(keep_endpoints(&points, vec![]), vec![0, 1, 4, 5]);
}

#[test]
fn subdivision_shrinks_with_many_points() {
    assert_eq!(subdivision_for(0), 10);
    assert_eq!(subdivision_for(3500), 10);
    assert_eq!(subdivision_for(3501), 9);
    assert_eq!(subdivision_for(5000), 7);
    assert_eq!(subdivision_for(1_000_000), 2);
}

#[test]
fn new_entries_made_by_the_dialogs() {
    let f = new_folder_in("/nb", "Math");
    assert_eq!(f.path, "/nb/Math");
    assert_eq!(f.manifest.item_type, ItemType::Folder);
    assert!(f.manifest.is_open);
    let file = new_file_in("/nb/Math", "Limits");
    assert_eq!(file.path, "/nb/Math/Limits");
    assert!(!file.manifest.is_open);
    assert_eq!(file.manifest.color, Color { r: 0, g: 0, b: 255, a: 255 });
    let p = new_page_in("/nb/Math/Limits", "Page_1", "Intro");
    assert_eq!(p.path, "/nb/Math/Limits/Page_1");
    assert_eq!(p.manifest.name, "Intro");
    assert_eq!(p.manifest.color, Color { r: 200, g: 200, b: 200, a: 255 });
    assert_eq!(page_subfolders(), ("regions", "image"));
    let proj = FastnoteProject::blank("/nb".to_string(), "Notebook".to_string(), Color::blue());
    assert!(proj.manifest.is_open);
    assert_eq!(proj.manifest.item_type, ItemType::Project);
}

#[test]
fn loading_decisions() {
    assert_eq!(entry_load_for(ItemType::Folder), EntryLoad::Folder);
    assert_eq!(entry_load_for(ItemType::File), EntryLoad::File);
    assert_eq!(entry_load_for(ItemType::Page), EntryLoad::Invalid(ItemType::Page));
    assert_eq!(page_load_for(ItemType::Page, true, true), PageLoad::Page);
    assert_eq!(page_load_for(ItemType::Page, true, false), PageLoad::Corrupted);
    assert_eq!(page_load_for(ItemType::Folder, true, true), PageLoad::WrongType(ItemType::Folder));
}

#[test]
fn opened_projects_list() {
    let mut m = OpenedProjectsManager::new(vec![]);
    m.create_blank_project("/a".to_string(), "A".to_string(), Color::black());
    m.create_blank_project("/b".to_string(), "B".to_string(), Color::blue());
    assert_eq!(m.project_paths(), vec!["/a".to_string(), "/b".to_string()]);
    m.retain_others(&vec![Some("/x/a".to_string()), Some("/x/b".to_string())], &Some("/x/a".to_string()));
    assert_eq!(m.project_paths(), vec!["/b".to_string()]);
    m.retain_others(&vec![None], &Some("/x/a".to_string()));
    assert!(m.projects.is_empty());
    let mut p = UserProject::new("N".to_string(), "/n".to_string(), Color::black());
    p.set_name("M".to_string());
    p.set_color(Color::blue());
    assert_eq!(p.get_name(), "M");
    assert_eq!(*p.get_color(), Color::blue());
}

#[test]
fn unloading_a_project_that_does_not_resolve_closes_all() {
    let mut m = OpenedProjectsManager::new(vec![UserProject::new("T".to_string(), "/tmp".to_string(), Color::black())]);
    m.unload_user_project_from_path("/fastnote_no_such_project");
    assert!(m.projects.is_empty());
    let mut m = OpenedProjectsManager::new(vec![UserProject::new("T".to_string(), "/tmp".to_string(), Color::black())]);
    m.unload_user_project_from_path("/");
    assert_eq!(m.projects.len(), 1);
    m.unload_user_project_from_path("/tmp");
    assert!(m.projects.is_empty());
}

#[test]
fn gestures_by_finger_count() {
    let mut f: UserInputs<u8> = UserInputs::default();
    f.finger_start(1, 0);
    assert_eq!(f.gesture(0), Gesture::Pan);
    f.finger_start(2, 0);
    assert_eq!(f.gesture(0), Gesture::Pinch { other: 1 });
    assert_eq!(f.gesture(1), Gesture::Pinch { other: 0 });
    f.finger_start(3, 0);
    assert_eq!(f.gesture(2), Gesture::Ignore);
}

#[test]
fn short_strokes_are_not_simplified() {
    assert!(!needs_simplifying(0));
    assert!(!needs_simplifying(4));
    assert!(needs_simplifying(5));
}
