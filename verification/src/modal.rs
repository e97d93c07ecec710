use vstd::prelude::*;

use crate::color::Color;
use crate::names::{folder_exists, is_valid_folder_name, valid_folder_name};

verus! {

/// The dialog that creates a project.
#[derive(Debug, PartialEq, Eq)]
pub struct NewProjectModalWindow {
    pub name: String,
    pub color: Color,
    /// The folder that will hold the project.
    pub path: String,
}

impl Default for NewProjectModalWindow {
    fn default() -> (r: NewProjectModalWindow)
        ensures
            r.name@.len() == 0,
            r.color == (Color { r: 0, g: 0, b: 255, a: 255 }),
            r.path@.len() == 0,
    {
        NewProjectModalWindow { name: String::new(), color: Color::blue(), path: String::new() }
    }
}

/// The dialog that creates a folder in `parent`.
#[derive(Debug, PartialEq, Eq)]
pub struct NewFolderModalWindow {
    pub parent: String,
    pub folder_name: String,
    pub display_name: String,
}

impl Default for NewFolderModalWindow {
    fn default() -> (r: NewFolderModalWindow)
        ensures
            r.parent@.len() == 0,
            r.folder_name@.len() == 0,
            r.display_name@.len() == 0,
    {
        NewFolderModalWindow {
            folder_name: String::new(),
            display_name: String::new(),
            parent: String::new(),
        }
    }
}

impl NewFolderModalWindow {
    /// The dialog for a folder in `parent`, with empty names.
    pub fn new(parent: String) -> (r: NewFolderModalWindow)
        ensures
            r.parent == parent,
            r.folder_name@.len() == 0,
            r.display_name@.len() == 0,
    {
        NewFolderModalWindow { folder_name: String::new(), display_name: String::new(), parent }
    }
}

/// The dialog that creates a file in `parent`.
#[derive(Debug, PartialEq, Eq)]
pub struct NewFileModalWindow {
    /// The name of the file's folder on disk.
    pub folder_name: String,
    /// The name shown for the file.
    pub display_name: String,
    pub parent: String,
}

impl Default for NewFileModalWindow {
    fn default() -> (r: NewFileModalWindow)
        ensures
            r.parent@.len() == 0,
            r.folder_name@.len() == 0,
            r.display_name@.len() == 0,
    {
        NewFileModalWindow {
            folder_name: String::new(),
            display_name: String::new(),
            parent: String::new(),
        }
    }
}

impl NewFileModalWindow {
    /// The dialog for a file in `parent`, with empty names.
    pub fn new(parent: String) -> (r: NewFileModalWindow)
        ensures
            r.parent == parent,
            r.folder_name@.len() == 0,
            r.display_name@.len() == 0,
    {
        NewFileModalWindow { folder_name: String::new(), display_name: String::new(), parent }
    }
}

/// The dialog that creates a page in the file `parent`.
#[derive(Debug, PartialEq, Eq)]
pub struct NewPageModalWindow {
    pub parent: String,
    /// The name of the page's folder on disk.
    pub folder_name: String,
    /// The name shown for the page.
    pub display_name: String,
}

impl NewPageModalWindow {
    /// The dialog for a page in `parent`, with empty names.
    pub fn new(parent: String) -> (r: NewPageModalWindow)
        ensures
            r.parent == parent,
            r.folder_name@.len() == 0,
            r.display_name@.len() == 0,
    {
        NewPageModalWindow { parent, folder_name: String::new(), display_name: String::new() }
    }
}

/// The dialog that renames the entry at `old_path`.
#[derive(Debug, PartialEq, Eq)]
pub struct RenameModalWindow {
    pub old_path: String,
    pub new_name: String,
}

impl Default for RenameModalWindow {
    fn default() -> (r: RenameModalWindow)
        ensures
            r.old_path@.len() == 0,
            r.new_name@.len() == 0,
    {
        RenameModalWindow { old_path: String::new(), new_name: String::new() }
    }
}

impl RenameModalWindow {
    /// The dialog for the entry at `old_path`, with an empty new name.
    pub fn new(old_path: String) -> (r: RenameModalWindow)
        ensures
            r.old_path == old_path,
            r.new_name@.len() == 0,
    {
        RenameModalWindow { old_path, new_name: String::new() }
    }
}

/// The dialog on screen, if any.
#[derive(Debug, PartialEq, Eq)]
pub enum ModalWindow {
    /// No dialog.
    Closed,
    /// The dialog was taken out to be drawn.
    Taken,
    NewProject(NewProjectModalWindow),
    NewFolder(NewFolderModalWindow),
    NewFile(NewFileModalWindow),
    Rename(RenameModalWindow),
    NewPage(NewPageModalWindow),
}

/// What the slot holds after a dialog drawn out of it is handed back: the dialog, unless
/// drawing it put something else there.
pub open spec fn restored(current: ModalWindow, taken: ModalWindow) -> ModalWindow {
    if current is Taken {
        taken
    } else {
        current
    }
}

impl ModalWindow {
    /// Takes the dialog out to draw it, leaving `Taken` in its place.
    pub fn take(&mut self) -> (r: ModalWindow)
        ensures
            r == *old(self),
            *final(self) == ModalWindow::Taken,
    {
        let mut t = ModalWindow::Taken;
        std::mem::swap(self, &mut t);
        t
    }

    /// Hands back a dialog taken out to be drawn, unless drawing it put another one
    /// (or none) in its place.
    pub fn restore(&mut self, taken: ModalWindow)
        ensures
            *final(self) == restored(*old(self), taken),
    {
        if let ModalWindow::Taken = self {
            *self = taken;
        }
    }
}

impl NewProjectModalWindow {
    /// The dialog for a project in the chosen folder `path`: no name yet, in black.
    pub fn for_folder(path: String) -> (r: NewProjectModalWindow)
        ensures
            r.path == path,
            r.name@.len() == 0,
            r.color == (Color { r: 0, g: 0, b: 0, a: 255 }),
    {
        NewProjectModalWindow { path, name: String::new(), color: Color::black() }
    }
}

/// Opens the dialog that creates a folder in the entry at `path`.
pub fn create_fastnote_folder(path: String, modal: &mut ModalWindow)
    ensures
        *final(modal) matches ModalWindow::NewFolder(w) && w.parent == path && w.folder_name@.len() == 0
            && w.display_name@.len() == 0,
{
    *modal = ModalWindow::NewFolder(NewFolderModalWindow::new(path));
}

/// Opens the dialog that creates a file in the entry at `path`.
pub fn create_fastnote_file(path: String, modal: &mut ModalWindow)
    ensures
        *final(modal) matches ModalWindow::NewFile(w) && w.parent == path && w.folder_name@.len() == 0
            && w.display_name@.len() == 0,
{
    *modal = ModalWindow::NewFile(NewFileModalWindow::new(path));
}

/// Opens the dialog that renames the entry at `path`.
pub fn rename_fastnote(path: String, modal: &mut ModalWindow)
    ensures
        *final(modal) matches ModalWindow::Rename(w) && w.old_path == path && w.new_name@.len() == 0,
{
    *modal = ModalWindow::Rename(RenameModalWindow::new(path));
}

/// What the tree's delete entry opens: deleting has no dialog of its own, so this is the
/// dialog that creates a folder in the entry at `path`.
pub fn delete_fastnote(path: String, modal: &mut ModalWindow)
    ensures
        *final(modal) matches ModalWindow::NewFolder(w) && w.parent == path && w.folder_name@.len() == 0
            && w.display_name@.len() == 0,
{
    *modal = ModalWindow::NewFolder(NewFolderModalWindow::new(path));
}

/// Taking a dialog out and handing it back, with nothing put in between, leaves it as it was.
pub proof fn law_take_then_restore(m: ModalWindow)
    ensures
        restored(ModalWindow::Taken, m) == m,
{
}

/// What a name typed in a creation dialog allows.
#[derive(Clone, Copy, Debug, PartialEq, Eq, Structural)]
pub enum NameCheck {
    /// Nothing typed yet: no error is shown, nothing can be created.
    Empty,
    /// The name holds a forbidden character.
    Invalid,
    /// The parent already holds an entry with this name.
    AlreadyExists,
    /// The entry can be created.
    Available,
}

/// What a name allows, given whether the parent already holds an entry with it.
pub open spec fn name_check(name: Seq<char>, exists: bool) -> NameCheck {
    if name.len() == 0 {
        NameCheck::Empty
    } else if !valid_folder_name(name) {
        NameCheck::Invalid
    } else if exists {
        NameCheck::AlreadyExists
    } else {
        NameCheck::Available
    }
}

/// What a name allows, given whether the parent already holds an entry with it.
pub fn classify_new_name(name: &str, exists: bool) -> (r: NameCheck)
    ensures
        r == name_check(name@, exists),
{
    if name.is_empty() {
        NameCheck::Empty
    } else if !is_valid_folder_name(name) {
        NameCheck::Invalid
    } else if exists {
        NameCheck::AlreadyExists
    } else {
        NameCheck::Available
    }
}

/// What the name typed for a new entry of `parent` allows. Whether an entry with that
/// name already exists is read from the disk, and only for a valid name.
pub fn check_new_name(parent: &str, name: &str) -> (r: NameCheck)
    ensures
        r == NameCheck::Empty <==> name@.len() == 0,
        r == NameCheck::Invalid <==> (name@.len() > 0 && !valid_folder_name(name@)),
        r == NameCheck::AlreadyExists || r == NameCheck::Available <==> valid_folder_name(name@),
{
    if name.is_empty() || !is_valid_folder_name(name) {
        classify_new_name(name, false)
    } else {
        let exists = folder_exists(parent, name);
        classify_new_name(name, exists)
    }
}

impl NameCheck {
    /// The error the dialog shows for this outcome, if any.
    pub fn message(&self) -> (r: Option<&'static str>)
        ensures
            *self == NameCheck::Invalid ==> r == Some("Caractère non valide dans le nom de fichier"),
            *self == NameCheck::AlreadyExists ==> r == Some("Un fichier portant ce nom existe déjà"),
            *self == NameCheck::Empty || *self == NameCheck::Available ==> r is None,
    {
        match self {
            NameCheck::Invalid => Some("Caractère non valide dans le nom de fichier"),
            NameCheck::AlreadyExists => Some("Un fichier portant ce nom existe déjà"),
            _ => None,
        }
    }
}

} // verus!
