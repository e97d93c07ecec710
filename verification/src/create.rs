use vstd::prelude::*;

use crate::color::Color;
use crate::names::{join_path, joined};
use crate::tree::{
    entry_view, EntryModel, FastnoteFile, FastnoteFolder, FastnotePage, FastnoteProject,
    FolderEntry, ItemType, Manifest,
};

verus! {

impl Manifest {
    /// The manifest of a new, empty item.
    pub fn blank(item_type: ItemType, name: String, color: Color, is_open: bool) -> (r: Manifest)
        ensures
            r.item_type == item_type,
            r.name == name,
            r.color == color,
            r.is_open == is_open,
            r.order@.len() == 0,
    {
        Manifest { item_type, name, color, is_open, order: Vec::new() }
    }
}

impl FastnoteProject {
    /// A new, empty project, open in the tree.
    pub fn blank(path: String, name: String, color: Color) -> (r: FastnoteProject)
        ensures
            r.path == path,
            r.manifest.item_type == ItemType::Project,
            r.manifest.name == name,
            r.manifest.color == color,
            r.manifest.is_open,
            r.manifest.order@.len() == 0,
            r.children@.len() == 0,
    {
        FastnoteProject {
            path,
            manifest: Manifest::blank(ItemType::Project, name, color, true),
            children: Vec::new(),
        }
    }
}

impl FastnoteFolder {
    /// A new, empty folder, open in the tree.
    pub fn blank(path: String, dir_name: String, name: String, color: Color) -> (r: FastnoteFolder)
        ensures
            r.path == path,
            r.dir_name == dir_name,
            r.manifest.item_type == ItemType::Folder,
            r.manifest.name == name,
            r.manifest.color == color,
            r.manifest.is_open,
            r.manifest.order@.len() == 0,
            r.children@.len() == 0,
    {
        FastnoteFolder {
            path,
            dir_name,
            manifest: Manifest::blank(ItemType::Folder, name, color, true),
            children: Vec::new(),
        }
    }
}

impl FastnoteFile {
    /// A new file without pages, closed in the tree.
    pub fn blank(path: String, dir_name: String, name: String, color: Color) -> (r: FastnoteFile)
        ensures
            r.path == path,
            r.dir_name == dir_name,
            r.manifest.item_type == ItemType::File,
            r.manifest.name == name,
            r.manifest.color == color,
            !r.manifest.is_open,
            r.manifest.order@.len() == 0,
            r.children@.len() == 0,
    {
        FastnoteFile {
            path,
            dir_name,
            manifest: Manifest::blank(ItemType::File, name, color, false),
            children: Vec::new(),
        }
    }
}

impl FastnotePage {
    /// A new, empty page.
    pub fn blank(path: String, dir_name: String, name: String, color: Color) -> (r: FastnotePage)
        ensures
            r.path == path,
            r.dir_name == dir_name,
            r.manifest.item_type == ItemType::Page,
            r.manifest.name == name,
            r.manifest.color == color,
            !r.manifest.is_open,
            r.manifest.order@.len() == 0,
    {
        FastnotePage { path, dir_name, manifest: Manifest::blank(ItemType::Page, name, color, false) }
    }
}

/// The folder that the "new folder" dialog creates in `parent`: named `folder_name`
/// on disk and in the tree, blue.
pub fn new_folder_in(parent: &str, folder_name: &str) -> (r: FastnoteFolder)
    ensures
        r.path@ == joined(parent@, folder_name@),
        r.dir_name@ == folder_name@,
        r.manifest.item_type == ItemType::Folder,
        r.manifest.name@ == folder_name@,
        r.manifest.color == (Color { r: 0, g: 0, b: 255, a: 255 }),
        r.manifest.is_open,
        r.manifest.order@.len() == 0,
        r.children@.len() == 0,
{
    FastnoteFolder::blank(join_path(parent, folder_name), folder_name.to_string(), folder_name.to_string(), Color::blue())
}

/// The file that the "new file" dialog creates in `parent`: named `folder_name` on disk
/// and in the tree, blue.
pub fn new_file_in(parent: &str, folder_name: &str) -> (r: FastnoteFile)
    ensures
        r.path@ == joined(parent@, folder_name@),
        r.dir_name@ == folder_name@,
        r.manifest.item_type == ItemType::File,
        r.manifest.name@ == folder_name@,
        r.manifest.color == (Color { r: 0, g: 0, b: 255, a: 255 }),
        !r.manifest.is_open,
        r.manifest.order@.len() == 0,
        r.children@.len() == 0,
{
    FastnoteFile::blank(join_path(parent, folder_name), folder_name.to_string(), folder_name.to_string(), Color::blue())
}

/// The page that the "new page" dialog creates in the file `parent`: its folder is
/// named `folder_name`, the page is shown as `display_name`, light grey.
pub fn new_page_in(parent: &str, folder_name: &str, display_name: &str) -> (r: FastnotePage)
    ensures
        r.path@ == joined(parent@, folder_name@),
        r.dir_name@ == folder_name@,
        r.manifest.item_type == ItemType::Page,
        r.manifest.name@ == display_name@,
        r.manifest.color == (Color { r: 200, g: 200, b: 200, a: 255 }),
        !r.manifest.is_open,
        r.manifest.order@.len() == 0,
{
    FastnotePage::blank(
        join_path(parent, folder_name),
        folder_name.to_string(),
        display_name.to_string(),
        Color::from_rgb(200, 200, 200),
    )
}

/// The folders a page holds besides its manifest: its regions and its rendered images.
pub fn page_subfolders() -> (r: (&'static str, &'static str))
    ensures
        r.0@ == "regions"@,
        r.1@ == "image"@,
{
    ("regions", "image")
}

/// What loading a folder of a project or of a folder does with it, by its manifest's type.
#[derive(Clone, Copy, Debug, PartialEq, Eq, Structural)]
pub enum EntryLoad {
    /// Load it as a folder.
    Folder,
    /// Load it as a file.
    File,
    /// A project or a page cannot stand there: loading fails.
    Invalid(ItemType),
}

/// What loading a folder of a project or of a folder does with it, by its manifest's type.
pub fn entry_load_for(item_type: ItemType) -> (r: EntryLoad)
    ensures
        r == match item_type {
            ItemType::Folder => EntryLoad::Folder,
            ItemType::File => EntryLoad::File,
            t => EntryLoad::Invalid(t),
        },
{
    match item_type {
        ItemType::Folder => EntryLoad::Folder,
        ItemType::File => EntryLoad::File,
        t => EntryLoad::Invalid(t),
    }
}

/// What loading a file does with one of its folders.
#[derive(Clone, Copy, Debug, PartialEq, Eq, Structural)]
pub enum PageLoad {
    /// Load it as a page.
    Page,
    /// A page that misses one of its folders: skipped.
    Corrupted,
    /// A file holds only pages: anything else is skipped.
    WrongType(ItemType),
}

/// What loading a file does with one of its folders, by its manifest's type and by
/// which of a page's folders it holds.
pub fn page_load_for(item_type: ItemType, has_regions: bool, has_image: bool) -> (r: PageLoad)
    ensures
        r == match item_type {
            ItemType::Page => if has_regions && has_image {
                PageLoad::Page
            } else {
                PageLoad::Corrupted
            },
            t => PageLoad::WrongType(t),
        },
{
    match item_type {
        ItemType::Page => {
            if has_regions && has_image {
                PageLoad::Page
            } else {
                PageLoad::Corrupted
            }
        },
        t => PageLoad::WrongType(t),
    }
}

/// The path of an entry's folder.
pub open spec fn entry_path(e: EntryModel) -> Seq<char> {
    match e {
        EntryModel::Folder { path, .. } => path,
        EntryModel::File(f) => f.path,
    }
}

impl FolderEntry {
    /// The path of the entry's folder.
    pub fn get_path(&self) -> (r: String)
        ensures
            r@ == entry_path(entry_view(*self)),
    {
        match self {
            FolderEntry::Folder(folder) => folder.path.clone(),
            FolderEntry::File(file) => file.path.clone(),
        }
    }
}

} // verus!
