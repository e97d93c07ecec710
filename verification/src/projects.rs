use vstd::prelude::*;

use crate::color::Color;
use crate::flat::FlatNode;
use crate::modal::NewProjectModalWindow;
use crate::names::{join_path, joined, same_path, same_path_spec};
use crate::navigate::{find_folder, flipped, found_folder, toggle_folder_open, toggled_entries};
use crate::tree::{entries_view, folder_view, EntryModel, FastnoteProject, ItemType, ManifestModel, ProjectModel};

verus! {

/// The projects as plain values.
pub open spec fn projects_view(s: Seq<FastnoteProject>) -> Seq<ProjectModel> {
    s.map_values(|p: FastnoteProject| p@)
}

/// The position of the first project whose path is `path`, or `s.len()` when there is none.
pub open spec fn first_project(s: Seq<ProjectModel>, path: Seq<char>) -> int
    decreases s.len(),
{
    if s.len() == 0 {
        0
    } else if same_path_spec(s[0].path, path) {
        0
    } else {
        1 + first_project(s.subrange(1, s.len() as int), path)
    }
}

pub proof fn lemma_first_project(s: Seq<ProjectModel>, path: Seq<char>)
    ensures
        0 <= first_project(s, path) <= s.len(),
        first_project(s, path) < s.len() ==> same_path_spec(s[first_project(s, path)].path, path),
        forall|j: int| 0 <= j < first_project(s, path) ==> !same_path_spec(s[j].path, path),
    decreases s.len(),
{
    if s.len() > 0 && !same_path_spec(s[0].path, path) {
        let t = s.subrange(1, s.len() as int);
        lemma_first_project(t, path);
        assert forall|j: int| 0 <= j < first_project(s, path) implies !same_path_spec(s[j].path, path) by {
            if j > 0 {
                assert(s[j] == t[j - 1]);
            }
        }
    }
}

pub proof fn lemma_first_project_unique(s: Seq<ProjectModel>, path: Seq<char>, i: int)
    requires
        0 <= i <= s.len(),
        i < s.len() ==> same_path_spec(s[i].path, path),
        forall|j: int| 0 <= j < i ==> !same_path_spec(s[j].path, path),
    ensures
        first_project(s, path) == i,
{
    lemma_first_project(s, path);
    let f = first_project(s, path);
    if f < i {
        assert(same_path_spec(s[f].path, path));
    } else if i < f {
        assert(!same_path_spec(s[i].path, path));
    }
}

/// The first project whose path is `path`, if any.
pub fn find_project(projects: &Vec<FastnoteProject>, path: &String) -> (r: Option<usize>)
    ensures
        match r {
            Some(i) => i as int == first_project(projects_view(projects@), path@) && i < projects@.len(),
            None => first_project(projects_view(projects@), path@) == projects@.len(),
        },
{
    let ghost pv = projects_view(projects@);
    let mut i: usize = 0;
    while i < projects.len()
        invariant
            0 <= i <= projects@.len(),
            pv == projects_view(projects@),
            pv.len() == projects@.len(),
            forall|j: int| 0 <= j < i ==> !same_path_spec(pv[j].path, path@),
        decreases projects@.len() - i,
    {
        assert(pv[i as int] == projects@[i as int]@);
        if same_path(projects[i].path.as_str(), path.as_str()) {
            proof {
                lemma_first_project_unique(pv, path@, i as int);
            }
            return Some(i);
        }
        i = i + 1;
    }
    proof {
        lemma_first_project_unique(pv, path@, i as int);
    }
    None
}

/// The first folder whose path is `path`, searching the projects one after the other.
pub open spec fn found_folder_in_projects(s: Seq<ProjectModel>, path: Seq<char>) -> Option<EntryModel>
    decreases s.len(),
{
    if s.len() == 0 {
        None
    } else {
        let a = found_folder_in_projects(s.drop_last(), path);
        if a is Some {
            a
        } else {
            found_folder(s.last().children, path)
        }
    }
}

/// Whether the tree shows the line of a project or folder open: what its manifest says,
/// or `None` when no project or folder has that path. Files and pages are never open.
pub open spec fn item_open_spec(s: Seq<ProjectModel>, kind: ItemType, path: Seq<char>) -> Option<bool> {
    match kind {
        ItemType::Project => {
            let i = first_project(s, path);
            if i < s.len() {
                Some(s[i].manifest.is_open)
            } else {
                None
            }
        },
        ItemType::Folder => match found_folder_in_projects(s, path) {
            Some(EntryModel::Folder { manifest, .. }) => Some(manifest.is_open),
            _ => None,
        },
        _ => Some(false),
    }
}

proof fn lemma_found_in_projects_prefix(s: Seq<ProjectModel>, path: Seq<char>, j: int)
    requires
        0 <= j <= s.len(),
        found_folder_in_projects(s.take(j), path) is Some,
    ensures
        found_folder_in_projects(s, path) == found_folder_in_projects(s.take(j), path),
    decreases s.len() - j,
{
    if j < s.len() {
        let t = s.drop_last();
        assert(t.take(j) =~= s.take(j));
        lemma_found_in_projects_prefix(t, path, j);
    } else {
        assert(s.take(j) =~= s);
    }
}

/// Whether the line `item` of the tree is shown open; `None` when no project or folder
/// has its path (the tree then reports it missing).
pub fn item_is_open(projects: &Vec<FastnoteProject>, item: &FlatNode) -> (r: Option<bool>)
    ensures
        r == item_open_spec(projects_view(projects@), item.kind, item.path@),
{
    match item.kind {
        ItemType::Project => match find_project(projects, &item.path) {
            Some(i) => {
                assert(projects_view(projects@)[i as int] == projects@[i as int]@);
                Some(projects[i].manifest.is_open)
            },
            None => None,
        },
        ItemType::Folder => {
            let ghost pv = projects_view(projects@);
            let n = projects.len();
            let mut i: usize = 0;
            while i < n
                invariant
                    n == projects@.len(),
                    0 <= i <= n,
                    pv == projects_view(projects@),
                    pv.len() == n,
                    found_folder_in_projects(pv.take(i as int), item.path@) is None,
                    item.kind == ItemType::Folder,
                decreases n - i,
            {
                assert(pv.take(i + 1).drop_last() =~= pv.take(i as int));
                assert(pv.take(i + 1).last() == projects@[i as int]@);
                match find_folder(&projects[i].children, &item.path) {
                    Some(f) => {
                        proof {
                            assert(pv[i as int].children == entries_view(projects@[i as int].children@));
                            assert(found_folder_in_projects(pv.take(i + 1), item.path@) == Some(folder_view(*f)));
                            lemma_found_in_projects_prefix(pv, item.path@, i + 1);
                        }
                        return Some(f.manifest.is_open);
                    },
                    None => {},
                }
                i = i + 1;
            }
            assert(pv.take(n as int) =~= pv);
            None
        },
        _ => Some(false),
    }
}

/// The projects with the first folder whose path is `path` toggled open or closed
/// (searching the projects one after the other), and whether one was found.
pub open spec fn toggled_in_projects(s: Seq<ProjectModel>, path: Seq<char>) -> (
    Seq<ProjectModel>,
    bool,
)
    decreases s.len(),
{
    if s.len() == 0 {
        (s, false)
    } else {
        let (a, found) = toggled_in_projects(s.drop_last(), path);
        if found {
            (a.push(s.last()), true)
        } else {
            let (c, f) = toggled_entries(s.last().children, path);
            (a.push(ProjectModel { children: c, ..s.last() }), f)
        }
    }
}

/// What is left to do once a line of the tree was clicked.
#[derive(Debug, PartialEq, Eq)]
pub enum ToggleOutcome {
    /// The project or folder at this path was opened or closed: its manifest is to be saved.
    Toggled(String),
    /// No project or folder has this path.
    NotFound,
    /// The file at this path becomes the current file.
    OpenFile(String),
    /// Nothing happens.
    Nothing,
}

/// The projects after the line `item` of the tree was clicked, and what is left to do.
pub open spec fn toggle_item_spec(
    s: Seq<ProjectModel>,
    kind: ItemType,
    path: Seq<char>,
) -> (Seq<ProjectModel>, Option<bool>) {
    match kind {
        ItemType::Project => {
            let i = first_project(s, path);
            if i < s.len() {
                (
                    s.update(
                        i,
                        ProjectModel {
                            manifest: ManifestModel {
                                is_open: !s[i].manifest.is_open,
                                ..s[i].manifest
                            },
                            ..s[i]
                        },
                    ),
                    Some(true),
                )
            } else {
                (s, Some(false))
            }
        },
        ItemType::Folder => {
            let (t, found) = toggled_in_projects(s, path);
            (t, Some(found))
        },
        _ => (s, None),
    }
}

/// Opens or closes the project or folder of a line of the tree, or tells which file
/// to open. Saving the toggled manifest is left to the caller.
pub fn toggle_item_open(projects: &mut Vec<FastnoteProject>, item: &FlatNode) -> (r: ToggleOutcome)
    ensures
        projects_view(final(projects)@) == toggle_item_spec(
            projects_view(old(projects)@),
            item.kind,
            item.path@,
        ).0,
        match toggle_item_spec(projects_view(old(projects)@), item.kind, item.path@).1 {
            Some(true) => r == ToggleOutcome::Toggled(item.path),
            Some(false) => r == ToggleOutcome::NotFound,
            None => if item.kind == ItemType::File {
                r == ToggleOutcome::OpenFile(item.path)
            } else {
                r == ToggleOutcome::Nothing
            },
        },
{
    match item.kind {
        ItemType::Project => {
            match find_project(projects, &item.path) {
                Some(i) => {
                    let ghost before = projects@;
                    let open = projects[i].manifest.is_open;
                    projects[i].manifest.is_open = !open;
                    assert(projects_view(projects@) =~= toggle_item_spec(
                        projects_view(before),
                        item.kind,
                        item.path@,
                    ).0);
                    ToggleOutcome::Toggled(item.path.clone())
                },
                None => ToggleOutcome::NotFound,
            }
        },
        ItemType::Folder => {
            let found = toggle_folder_in_projects(projects, &item.path);
            if found {
                ToggleOutcome::Toggled(item.path.clone())
            } else {
                ToggleOutcome::NotFound
            }
        },
        ItemType::File => ToggleOutcome::OpenFile(item.path.clone()),
        ItemType::Page => ToggleOutcome::Nothing,
    }
}

fn toggle_folder_in_projects(projects: &mut Vec<FastnoteProject>, path: &String) -> (found: bool)
    ensures
        (projects_view(final(projects)@), found) == toggled_in_projects(
            projects_view(old(projects)@),
            path@,
        ),
{
    let ghost pv = projects_view(projects@);
    let n = projects.len();
    let mut i: usize = 0;
    while i < n
        invariant
            n == projects@.len(),
            0 <= i <= n,
            pv == projects_view(old(projects)@),
            pv.len() == n,
            projects_view(projects@) == pv,
            toggled_in_projects(pv.take(i as int), path@) == (pv.take(i as int), false),
        decreases n - i,
    {
        assert(pv.take(i + 1).drop_last() =~= pv.take(i as int));
        let ghost before = projects@;
        assert(projects_view(before)[i as int] == before[i as int]@);
        let found = toggle_folder_open(&mut projects[i].children, path);
        proof {
            crate::navigate::lemma_toggle_not_found(pv[i as int].children, path@);
            lemma_toggled_in_projects_not_found(pv.take(i as int), path@);
        }
        if found {
            proof {
                lemma_toggled_projects_prefix(pv, path@, i + 1);
                let last = ProjectModel {
                    children: toggled_entries(pv[i as int].children, path@).0,
                    ..pv[i as int]
                };
                assert(pv.take(i + 1).last() == pv[i as int]);
                let want = pv.take(i as int).push(last) + pv.skip(i + 1);
                assert forall|k: int| 0 <= k < n implies #[trigger] projects_view(projects@)[k] == want[k] by {
                    if k != i {
                        assert(projects@[k] == before[k]);
                        assert(projects_view(before)[k] == before[k]@);
                    }
                }
                assert(projects_view(projects@) =~= want);
            }
            return true;
        }
        proof {
            assert forall|k: int| 0 <= k < n implies #[trigger] projects_view(projects@)[k] == pv[k] by {
                if k != i {
                    assert(projects@[k] == before[k]);
                    assert(projects_view(before)[k] == before[k]@);
                }
            }
            assert(projects_view(projects@) =~= pv);
            assert(pv.take(i + 1) =~= pv.take(i as int).push(pv[i as int]));
        }
        i = i + 1;
    }
    assert(pv.take(n as int) =~= pv);
    false
}

pub proof fn lemma_toggled_in_projects_not_found(s: Seq<ProjectModel>, path: Seq<char>)
    ensures
        !toggled_in_projects(s, path).1 ==> toggled_in_projects(s, path).0 == s,
    decreases s.len(),
{
    if s.len() > 0 {
        lemma_toggled_in_projects_not_found(s.drop_last(), path);
        crate::navigate::lemma_toggle_not_found(s.last().children, path);
        if !toggled_in_projects(s, path).1 {
            assert(toggled_in_projects(s, path).0 =~= s);
        }
    }
}

pub proof fn lemma_toggled_projects_prefix(s: Seq<ProjectModel>, path: Seq<char>, j: int)
    requires
        0 <= j <= s.len(),
        toggled_in_projects(s.take(j), path).1,
    ensures
        toggled_in_projects(s, path) == (toggled_in_projects(s.take(j), path).0 + s.skip(j), true),
    decreases s.len() - j,
{
    if j < s.len() {
        let t = s.drop_last();
        assert(t.take(j) =~= s.take(j));
        lemma_toggled_projects_prefix(t, path, j);
        assert(t.skip(j).push(s.last()) =~= s.skip(j));
        assert(toggled_in_projects(s.take(j), path).0 + t.skip(j).push(s.last()) =~= (
        toggled_in_projects(s.take(j), path).0 + t.skip(j)).push(s.last()));
    } else {
        assert(s.take(j) =~= s);
        assert(toggled_in_projects(s, path).0 + s.skip(j) =~= toggled_in_projects(s, path).0);
    }
}

} // verus!
verus! {

/// A project in the list of opened projects.
#[derive(Debug)]
pub struct UserProject {
    /// The project's folder.
    pub path: String,
    pub name: String,
    pub color: Color,
}

impl UserProject {
    pub fn new(name: String, path: String, color: Color) -> (r: UserProject)
        ensures
            r.name == name,
            r.path == path,
            r.color == color,
    {
        UserProject { path, name, color }
    }

    pub fn get_name(&self) -> (r: &str)
        ensures
            r@ == self.name@,
    {
        self.name.as_str()
    }

    pub fn get_color(&self) -> (r: &Color)
        ensures
            *r == self.color,
    {
        &self.color
    }

    /// Renames the project; saving it is left to the caller.
    pub fn set_name(&mut self, name: String)
        ensures
            final(self).name == name,
            final(self).path == old(self).path,
            final(self).color == old(self).color,
    {
        self.name = name;
    }

    /// Recolors the project; saving it is left to the caller.
    pub fn set_color(&mut self, color: Color)
        ensures
            final(self).color == color,
            final(self).path == old(self).path,
            final(self).name == old(self).name,
    {
        self.color = color;
    }
}

/// The projects the user has opened.
pub struct OpenedProjectsManager {
    pub projects: Vec<UserProject>,
}

/// The projects that stay once the one at `target` is closed: a project stays when both
/// its path and the target resolve on disk and they resolve to different paths (compared
/// by their components).
pub open spec fn retained(
    s: Seq<UserProject>,
    canon: Seq<Option<Seq<char>>>,
    target: Option<Seq<char>>,
) -> Seq<UserProject>
    decreases s.len(),
{
    if s.len() == 0 || canon.len() < s.len() {
        Seq::empty()
    } else {
        let rest = retained(s.drop_last(), canon, target);
        let c = canon[s.len() - 1];
        if c is Some && target is Some && !same_path_spec(c->0, target->0) {
            rest.push(s.last())
        } else {
            rest
        }
    }
}

/// Where a path resolves on disk (`std::path::Path::canonicalize`), as text.
/// Nothing is stated of the result: it depends on the disk at the time of the call.
#[verifier::external_body]
fn canonical_path(path: &str) -> Option<String> {
    std::path::Path::new(path).canonicalize().ok().map(|p| p.to_string_lossy().into_owned())
}

impl OpenedProjectsManager {
    pub fn new(projects: Vec<UserProject>) -> (r: OpenedProjectsManager)
        ensures
            r.projects == projects,
    {
        OpenedProjectsManager { projects }
    }

    /// Adds a new project at the end of the list; writing it and the list is left to the caller.
    pub fn create_blank_project(&mut self, path: String, name: String, color: Color)
        ensures
            final(self).projects@ == old(self).projects@.push(UserProject { path, name, color }),
    {
        self.projects.push(UserProject::new(name, path, color));
    }

    /// Adds the project the creation dialog describes: the folder named after the project
    /// in the folder chosen, with the name and color typed. Writing it is left to the caller.
    pub fn user_created_project(&mut self, dialog: &NewProjectModalWindow)
        ensures
            final(self).projects@.len() == old(self).projects@.len() + 1,
            final(self).projects@.drop_last() == old(self).projects@,
            final(self).projects@.last().path@ == joined(dialog.path@, dialog.name@),
            final(self).projects@.last().name == dialog.name,
            final(self).projects@.last().color == dialog.color,
    {
        let path = join_path(dialog.path.as_str(), dialog.name.as_str());
        self.create_blank_project(path, dialog.name.clone(), dialog.color);
    }

    /// The folders of the projects, in order: what the list of opened projects stores.
    pub fn project_paths(&self) -> (r: Vec<String>)
        ensures
            r@.len() == self.projects@.len(),
            forall|i: int| 0 <= i < r@.len() ==> #[trigger] r@[i] == self.projects@[i].path,
    {
        let mut r: Vec<String> = Vec::new();
        for i in 0..self.projects.len()
            invariant
                r@.len() == i,
                forall|j: int| 0 <= j < i ==> #[trigger] r@[j] == self.projects@[j].path,
        {
            r.push(self.projects[i].path.clone());
        }
        r
    }

    /// Keeps the projects whose resolved path (`canon`, one per project) is known and
    /// differs from the resolved `target`.
    pub fn retain_others(&mut self, canon: &Vec<Option<String>>, target: &Option<String>)
        requires
            canon@.len() == old(self).projects@.len(),
        ensures
            final(self).projects@ == retained(
                old(self).projects@,
                canon@.map_values(|c: Option<String>| opt_text(c)),
                opt_text(*target),
            ),
    {
        let ghost cv = canon@.map_values(|c: Option<String>| opt_text(c));
        let ghost tv = opt_text(*target);
        let mut old_projects: Vec<UserProject> = Vec::new();
        std::mem::swap(&mut self.projects, &mut old_projects);
        let ghost s = old_projects@;
        let mut kept: Vec<UserProject> = Vec::new();
        let mut i: usize = 0;
        for p in it: old_projects.into_iter()
            invariant
                it.seq() == s,
                i == it.index(),
                canon@.len() == s.len(),
                cv == canon@.map_values(|c: Option<String>| opt_text(c)),
                tv == opt_text(*target),
                kept@ == retained(s.take(it.index()), cv, tv),
        {
            let ghost k = it.index();
            assert(s.take(k + 1).drop_last() =~= s.take(k));
            assert(s.take(k + 1).last() == p);
            assert(k < s.len());
            assert(i < canon.len());
            assert(cv[k] == opt_text(canon@[k]));
            let keep = match (&canon[i], target) {
                (Some(c), Some(t)) => !same_path(c.as_str(), t.as_str()),
                _ => false,
            };
            if keep {
                kept.push(p);
            }
            i = i + 1;
        }
        assert(s.take(s.len() as int) =~= s);
        self.projects = kept;
    }

    /// Closes the project at `path`: keeps the projects whose folder resolves on disk to
    /// another place than `path` does (none stays when `path` does not resolve).
    /// Writing the list is left to the caller.
    pub fn unload_user_project_from_path(&mut self, path: &str)
        ensures
            exists|canon: Seq<Option<Seq<char>>>, target: Option<Seq<char>>|
                canon.len() == old(self).projects@.len() && final(self).projects@ == retained(
                    old(self).projects@,
                    canon,
                    target,
                ),
    {
        let target = canonical_path(path);
        let mut canon: Vec<Option<String>> = Vec::new();
        for i in 0..self.projects.len()
            invariant
                canon@.len() == i,
        {
            canon.push(canonical_path(self.projects[i].path.as_str()));
        }
        self.retain_others(&canon, &target);
    }
}

/// The text of an optional string.
pub open spec fn opt_text(o: Option<String>) -> Option<Seq<char>> {
    match o {
        Some(s) => Some(s@),
        None => None,
    }
}

} // verus!
verus! {

/// Toggling the same folder twice across the projects gives back the projects.
pub proof fn law_toggle_in_projects_twice(s: Seq<ProjectModel>, path: Seq<char>)
    ensures
        toggled_in_projects(toggled_in_projects(s, path).0, path) == (s, toggled_in_projects(s, path).1),
    decreases s.len(),
{
    if s.len() > 0 {
        let t = s.drop_last();
        let last = s.last();
        law_toggle_in_projects_twice(t, path);
        lemma_toggled_in_projects_not_found(t, path);
        let (a, f) = toggled_in_projects(t, path);
        if f {
            let s2 = a.push(last);
            assert(s2.drop_last() =~= a);
            assert(t.push(last) =~= s);
        } else {
            let (c, f2) = toggled_entries(last.children, path);
            crate::navigate::law_toggle_twice_restores(last.children, path);
            let p2 = ProjectModel { children: c, ..last };
            let s2 = t.push(p2);
            assert(s2.drop_last() =~= t);
            assert(ProjectModel { children: toggled_entries(c, path).0, ..p2 } == last);
            assert(t.push(last) =~= s);
        }
    }
}

/// Clicking the arrow of the same project or folder twice gives back the projects as
/// they were.
pub proof fn law_toggle_item_twice_restores(s: Seq<ProjectModel>, kind: ItemType, path: Seq<char>)
    ensures
        toggle_item_spec(toggle_item_spec(s, kind, path).0, kind, path).0 == s,
{
    match kind {
        ItemType::Project => {
            let i = first_project(s, path);
            lemma_first_project(s, path);
            if i < s.len() {
                let s2 = toggle_item_spec(s, kind, path).0;
                assert forall|j: int| 0 <= j < i implies !same_path_spec(s2[j].path, path) by {
                    assert(s2[j] == s[j]);
                }
                lemma_first_project_unique(s2, path, i);
                assert(toggle_item_spec(s2, kind, path).0 =~= s);
            }
        },
        ItemType::Folder => {
            law_toggle_in_projects_twice(s, path);
        },
        _ => {},
    }
}

} // verus!
verus! {

/// Toggling a folder line finds the folder wherever looking it up across the projects
/// does: in any of the opened projects, not only the first.
pub proof fn law_toggle_finds_what_lookup_finds(s: Seq<ProjectModel>, path: Seq<char>)
    ensures
        toggled_in_projects(s, path).1 == (found_folder_in_projects(s, path) is Some),
        toggle_item_spec(s, ItemType::Folder, path).1 == Some(found_folder_in_projects(s, path) is Some),
    decreases s.len(),
{
    if s.len() > 0 {
        law_toggle_finds_what_lookup_finds(s.drop_last(), path);
        crate::navigate::law_found_iff_toggled(s.last().children, path);
    }
}

/// After toggling, looking the folder up across the projects finds it with its "open"
/// flag flipped.
pub proof fn law_toggle_in_projects_flips_the_found_folder(s: Seq<ProjectModel>, path: Seq<char>)
    ensures
        found_folder_in_projects(toggled_in_projects(s, path).0, path) == flipped(
            found_folder_in_projects(s, path),
        ),
    decreases s.len(),
{
    if s.len() > 0 {
        let t = s.drop_last();
        let last = s.last();
        law_toggle_in_projects_flips_the_found_folder(t, path);
        law_toggle_finds_what_lookup_finds(t, path);
        lemma_toggled_in_projects_not_found(t, path);
        let (a, found) = toggled_in_projects(t, path);
        if found {
            let s2 = a.push(last);
            assert(s2.drop_last() =~= a);
        } else {
            crate::navigate::law_toggle_flips_the_found_folder(last.children, path);
            let (c, f) = toggled_entries(last.children, path);
            let s2 = a.push(ProjectModel { children: c, ..last });
            assert(s2.drop_last() =~= a);
            assert(a == t);
        }
    }
}

/// Clicking a folder line's arrow flips what the tree shows for that line: shown open
/// before, it is shown closed after, and the other way round; a line whose folder is not
/// found stays not found.
pub proof fn law_toggle_flips_item_open(s: Seq<ProjectModel>, path: Seq<char>)
    ensures
        item_open_spec(toggle_item_spec(s, ItemType::Folder, path).0, ItemType::Folder, path) == match item_open_spec(
            s,
            ItemType::Folder,
            path,
        ) {
            Some(b) => Some(!b),
            None => None,
        },
{
    law_toggle_in_projects_flips_the_found_folder(s, path);
}

} // verus!
