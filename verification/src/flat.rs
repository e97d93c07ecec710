use vstd::prelude::*;

use crate::navigate::{found_file, found_file_in, found_folder, found_folder_in};
use crate::names::same_path_spec;
use crate::tree::{
    entries_view, entry_view, lemma_entries_view, EntryModel, FastnoteProject, FolderEntry,
    ItemType, ProjectModel,
};

verus! {

/// One line of the notebook tree as the side panel shows it.
#[derive(Debug)]
pub struct FlatNode {
    pub path: String,
    pub name: String,
    pub kind: ItemType,
    /// How many folders above it, the project counting as depth 0.
    pub depth: usize,
    pub is_open: bool,
}

/// A line of the tree as plain values.
pub struct FlatModel {
    pub path: Seq<char>,
    pub name: Seq<char>,
    pub kind: ItemType,
    pub depth: int,
    pub is_open: bool,
}

impl View for FlatNode {
    type V = FlatModel;

    open spec fn view(&self) -> FlatModel {
        FlatModel {
            path: self.path@,
            name: self.name@,
            kind: self.kind,
            depth: self.depth as int,
            is_open: self.is_open,
        }
    }
}

pub open spec fn flat_view(s: Seq<FlatNode>) -> Seq<FlatModel> {
    s.map_values(|n: FlatNode| n@)
}

/// The lines of an entry at `depth`: the entry, then, when it is an open folder,
/// the lines of what it holds one level deeper.
pub open spec fn flatten_entry(e: EntryModel, depth: int) -> Seq<FlatModel>
    decreases e,
{
    match e {
        EntryModel::Folder { path, manifest, children, .. } => seq![
            FlatModel {
                path,
                name: manifest.name,
                kind: ItemType::Folder,
                depth,
                is_open: manifest.is_open,
            },
        ] + if manifest.is_open {
            flatten_entries(children, depth + 1)
        } else {
            Seq::empty()
        },
        EntryModel::File(f) => seq![
            FlatModel {
                path: f.path,
                name: f.manifest.name,
                kind: ItemType::File,
                depth,
                is_open: false,
            },
        ],
    }
}

/// The lines of a sequence of entries at `depth`, one entry after the other.
pub open spec fn flatten_entries(s: Seq<EntryModel>, depth: int) -> Seq<FlatModel>
    decreases s,
{
    if s.len() == 0 {
        Seq::empty()
    } else {
        flatten_entries(s.drop_last(), depth) + flatten_entry(s.last(), depth)
    }
}

/// The lines of a project: the project at depth 0, then, when it is open, what it holds.
pub open spec fn flatten_project_spec(p: ProjectModel) -> Seq<FlatModel> {
    seq![
        FlatModel {
            path: p.path,
            name: p.manifest.name,
            kind: ItemType::Project,
            depth: 0,
            is_open: p.manifest.is_open,
        },
    ] + if p.manifest.is_open {
        flatten_entries(p.children, 1)
    } else {
        Seq::empty()
    }
}

/// How many levels of folders an entry spans (a file spans one).
pub open spec fn entry_height(e: EntryModel) -> nat
    decreases e,
{
    match e {
        EntryModel::Folder { children, .. } => 1 + entries_height(children),
        EntryModel::File(_) => 1,
    }
}

/// How many levels of folders a sequence of entries spans.
pub open spec fn entries_height(s: Seq<EntryModel>) -> nat
    decreases s,
{
    if s.len() == 0 {
        0
    } else {
        let a = entries_height(s.drop_last());
        let b = entry_height(s.last());
        if a >= b {
            a
        } else {
            b
        }
    }
}

pub proof fn lemma_entries_height(s: Seq<EntryModel>)
    ensures
        forall|k: int| 0 <= k < s.len() ==> entry_height(#[trigger] s[k]) <= entries_height(s),
    decreases s.len(),
{
    if s.len() > 0 {
        lemma_entries_height(s.drop_last());
        assert forall|k: int| 0 <= k < s.len() implies entry_height(#[trigger] s[k]) <= entries_height(s) by {
            if k < s.len() - 1 {
                assert(s.drop_last()[k] == s[k]);
            }
        }
    }
}

fn flat_node(path: &String, name: &String, kind: ItemType, depth: usize, is_open: bool) -> (r:
    FlatNode)
    ensures
        r@ == (FlatModel { path: path@, name: name@, kind, depth: depth as int, is_open }),
{
    FlatNode { path: path.clone(), name: name.clone(), kind, depth, is_open }
}

/// Appends the lines of `entries` at `depth` to `out`.
pub fn flatten_folder_entries(entries: &Vec<FolderEntry>, depth: usize, out: &mut Vec<FlatNode>)
    requires
        depth + entries_height(entries_view(entries@)) <= usize::MAX,
    ensures
        flat_view(final(out)@) == flat_view(old(out)@) + flatten_entries(
            entries_view(entries@),
            depth as int,
        ),
    decreases entries,
{
    let ghost start = flat_view(out@);
    let ghost ev = entries_view(entries@);
    proof {
        lemma_entries_view(entries@);
        lemma_entries_height(ev);
    }
    for i in 0..entries.len()
        invariant
            ev == entries_view(entries@),
            ev.len() == entries@.len(),
            forall|k: int| 0 <= k < entries@.len() ==> #[trigger] ev[k] == entry_view(entries@[k]),
            forall|k: int| 0 <= k < ev.len() ==> entry_height(#[trigger] ev[k]) <= entries_height(ev),
            depth + entries_height(ev) <= usize::MAX,
            flat_view(out@) == start + flatten_entries(ev.take(i as int), depth as int),
    {
        assert(ev.take(i + 1).drop_last() =~= ev.take(i as int));
        assert(ev.take(i + 1).last() == ev[i as int]);
        let ghost before = flat_view(out@);
        let ghost step = flatten_entry(ev[i as int], depth as int);
        assert(flatten_entries(ev.take(i + 1), depth as int) == flatten_entries(
            ev.take(i as int),
            depth as int,
        ) + step);
        match &entries[i] {
            FolderEntry::Folder(f) => {
                assert(ev[i as int] == entry_view(entries@[i as int]));
                let n = flat_node(&f.path, &f.manifest.name, ItemType::Folder, depth, f.manifest.is_open);
                out.push(n);
                assert(flat_view(out@) =~= before.push(n@));
                let ghost rest = if f.manifest.is_open {
                    flatten_entries(entries_view(f.children@), depth + 1)
                } else {
                    Seq::empty()
                };
                assert(step == seq![n@] + rest);
                if f.manifest.is_open {
                    assert(decreases_to!(entries => f.children));
                    flatten_folder_entries(&f.children, depth + 1, out);
                }
                assert(flat_view(out@) =~= before.push(n@) + rest);
                assert(flat_view(out@) =~= start + flatten_entries(ev.take(i + 1), depth as int));
            },
            FolderEntry::File(f) => {
                let n = flat_node(&f.path, &f.manifest.name, ItemType::File, depth, false);
                out.push(n);
                assert(step == seq![n@]);
                assert(flat_view(out@) =~= before.push(n@));
                assert(flat_view(out@) =~= start + flatten_entries(ev.take(i + 1), depth as int));
            },
        }
    }
    assert(ev.take(entries.len() as int) =~= ev);
}

/// How many levels of folders `entries` span, or `usize::MAX` when that is more.
pub fn capped_height(entries: &Vec<FolderEntry>) -> (r: usize)
    ensures
        r == if entries_height(entries_view(entries@)) <= usize::MAX {
            entries_height(entries_view(entries@))
        } else {
            usize::MAX as nat
        },
    decreases entries,
{
    let ghost ev = entries_view(entries@);
    proof {
        lemma_entries_view(entries@);
    }
    let mut h: usize = 0;
    for i in 0..entries.len()
        invariant
            ev == entries_view(entries@),
            ev.len() == entries@.len(),
            forall|k: int| 0 <= k < entries@.len() ==> #[trigger] ev[k] == entry_view(entries@[k]),
            h == if entries_height(ev.take(i as int)) <= usize::MAX {
                entries_height(ev.take(i as int))
            } else {
                usize::MAX as nat
            },
    {
        assert(ev.take(i + 1).drop_last() =~= ev.take(i as int));
        assert(ev.take(i + 1).last() == ev[i as int]);
        let e: usize = match &entries[i] {
            FolderEntry::Folder(f) => {
                assert(ev[i as int] == entry_view(entries@[i as int]));
                assert(decreases_to!(entries => f.children));
                let c = capped_height(&f.children);
                if c == usize::MAX {
                    usize::MAX
                } else {
                    c + 1
                }
            },
            FolderEntry::File(_) => 1,
        };
        assert(e == if entry_height(ev[i as int]) <= usize::MAX {
            entry_height(ev[i as int])
        } else {
            usize::MAX as nat
        });
        if e > h {
            h = e;
        }
    }
    assert(ev.take(entries.len() as int) =~= ev);
    h
}

/// Whether the lines of `project` fit their depths: what `flatten_project` asks.
pub fn project_height_fits(project: &FastnoteProject) -> (r: bool)
    ensures
        r == (1 + entries_height(project@.children) <= usize::MAX),
{
    capped_height(&project.children) < usize::MAX
}

/// Appends the lines of a project to `out`: the project, then, when it is open,
/// what it holds.
pub fn flatten_project(project: &FastnoteProject, out: &mut Vec<FlatNode>)
    requires
        1 + entries_height(project@.children) <= usize::MAX,
    ensures
        flat_view(final(out)@) == flat_view(old(out)@) + flatten_project_spec(project@),
{
    let ghost before = flat_view(out@);
    let n = flat_node(&project.path, &project.manifest.name, ItemType::Project, 0, project.manifest.is_open);
    out.push(n);
    assert(flat_view(out@) =~= before.push(n@));
    if project.manifest.is_open {
        flatten_folder_entries(&project.children, 1, out);
    }
    assert(flat_view(out@) =~= before + flatten_project_spec(project@));
}

} // verus!
verus! {

/// The lines of entries at `depth` all lie between `depth` and the deepest level the
/// entries span, and are folders or files.
pub proof fn law_flat_depths(s: Seq<EntryModel>, depth: int)
    ensures
        forall|k: int|
            0 <= k < flatten_entries(s, depth).len() ==> {
                let line = #[trigger] flatten_entries(s, depth)[k];
                &&& depth <= line.depth < depth + entries_height(s)
                &&& (line.kind == ItemType::Folder || line.kind == ItemType::File)
            },
    decreases s,
{
    if s.len() > 0 {
        let t = s.drop_last();
        let e = s.last();
        law_flat_depths(t, depth);
        law_flat_entry_depths(e, depth);
        let a = flatten_entries(t, depth);
        let b = flatten_entry(e, depth);
        assert forall|k: int| 0 <= k < flatten_entries(s, depth).len() implies {
            let line = #[trigger] flatten_entries(s, depth)[k];
            &&& depth <= line.depth < depth + entries_height(s)
            &&& (line.kind == ItemType::Folder || line.kind == ItemType::File)
        } by {
            if k < a.len() {
                assert(flatten_entries(s, depth)[k] == a[k]);
            } else {
                assert(flatten_entries(s, depth)[k] == b[k - a.len()]);
            }
        }
    }
}

/// The lines of an entry at `depth` lie between `depth` and the deepest level it spans.
pub proof fn law_flat_entry_depths(e: EntryModel, depth: int)
    ensures
        forall|k: int|
            0 <= k < flatten_entry(e, depth).len() ==> {
                let line = #[trigger] flatten_entry(e, depth)[k];
                &&& depth <= line.depth < depth + entry_height(e)
                &&& (line.kind == ItemType::Folder || line.kind == ItemType::File)
            },
        flatten_entry(e, depth).len() >= 1,
        flatten_entry(e, depth)[0].depth == depth,
    decreases e,
{
    match e {
        EntryModel::Folder { path, manifest, children, .. } => {
            law_flat_depths(children, depth + 1);
            let head = seq![FlatModel { path, name: manifest.name, kind: ItemType::Folder, depth, is_open: manifest.is_open }];
            let rest = if manifest.is_open { flatten_entries(children, depth + 1) } else { Seq::empty() };
            assert(flatten_entry(e, depth) == head + rest);
            assert forall|k: int| 0 <= k < flatten_entry(e, depth).len() implies {
                let line = #[trigger] flatten_entry(e, depth)[k];
                &&& depth <= line.depth < depth + entry_height(e)
                &&& (line.kind == ItemType::Folder || line.kind == ItemType::File)
            } by {
                if k >= 1 {
                    assert(flatten_entry(e, depth)[k] == rest[k - 1]);
                }
            }
        },
        EntryModel::File(_) => {},
    }
}

/// A project's lines start with the project at depth 0; a closed project shows nothing
/// else; the other lines are folders and files, one level deeper or more.
pub proof fn law_flat_project(p: ProjectModel)
    ensures
        flatten_project_spec(p).len() >= 1,
        flatten_project_spec(p)[0].kind == ItemType::Project,
        flatten_project_spec(p)[0].depth == 0,
        flatten_project_spec(p)[0].path == p.path,
        !p.manifest.is_open ==> flatten_project_spec(p).len() == 1,
        forall|k: int|
            1 <= k < flatten_project_spec(p).len() ==> {
                let line = #[trigger] flatten_project_spec(p)[k];
                &&& 1 <= line.depth <= entries_height(p.children)
                &&& line.kind != ItemType::Project
            },
{
    law_flat_depths(p.children, 1);
    let rest = if p.manifest.is_open { flatten_entries(p.children, 1) } else { Seq::empty() };
    assert forall|k: int| 1 <= k < flatten_project_spec(p).len() implies {
        let line = #[trigger] flatten_project_spec(p)[k];
        &&& 1 <= line.depth <= entries_height(p.children)
        &&& line.kind != ItemType::Project
    } by {
        assert(flatten_project_spec(p)[k] == rest[k - 1]);
    }
}

} // verus!
verus! {

proof fn lemma_found_folder_at(s: Seq<EntryModel>, i: int, p: Seq<char>)
    requires
        0 <= i < s.len(),
        found_folder_in(s[i], p) is Some,
    ensures
        found_folder(s, p) is Some,
    decreases s.len(),
{
    if i < s.len() - 1 {
        lemma_found_folder_at(s.drop_last(), i, p);
    }
}

proof fn lemma_found_file_at(s: Seq<EntryModel>, i: int, p: Seq<char>)
    requires
        0 <= i < s.len(),
        found_file_in(s[i], p) is Some,
    ensures
        found_file(s, p) is Some,
    decreases s.len(),
{
    if i < s.len() - 1 {
        lemma_found_file_at(s.drop_last(), i, p);
    }
}

/// Every line of an entry leads back into it: looking the line's path up among the
/// folders (for a folder's line) or the files (for a file's line) of the entry finds one.
/// The entry's own line comes first, with its path, name, depth, kind and open flag.
pub proof fn law_flat_entry_lines_lead_to_entries(e: EntryModel, depth: int)
    ensures
        flatten_entry(e, depth).len() > 0,
        flatten_entry(e, depth)[0].path == match e {
            EntryModel::Folder { path, .. } => path,
            EntryModel::File(f) => f.path,
        },
        flatten_entry(e, depth)[0].name == match e {
            EntryModel::Folder { manifest, .. } => manifest.name,
            EntryModel::File(f) => f.manifest.name,
        },
        flatten_entry(e, depth)[0].depth == depth,
        flatten_entry(e, depth)[0].kind == match e {
            EntryModel::Folder { .. } => ItemType::Folder,
            EntryModel::File(_) => ItemType::File,
        },
        flatten_entry(e, depth)[0].is_open == match e {
            EntryModel::Folder { manifest, .. } => manifest.is_open,
            EntryModel::File(_) => false,
        },
        forall|k: int|
            0 <= k < flatten_entry(e, depth).len() ==> {
                let line = #[trigger] flatten_entry(e, depth)[k];
                &&& line.kind == ItemType::Folder ==> found_folder_in(e, line.path) is Some
                &&& line.kind == ItemType::File ==> found_file_in(e, line.path) is Some
            },
    decreases e,
{
    match e {
        EntryModel::Folder { path, manifest, children, .. } => {
            let head = flatten_entry(e, depth)[0];
            assert(same_path_spec(head.path, path));
            if manifest.is_open {
                law_flat_lines_lead_to_entries(children, depth + 1);
                let rest = flatten_entries(children, depth + 1);
                assert forall|k: int| 0 <= k < flatten_entry(e, depth).len() implies {
                    let line = #[trigger] flatten_entry(e, depth)[k];
                    &&& line.kind == ItemType::Folder ==> found_folder_in(e, line.path) is Some
                    &&& line.kind == ItemType::File ==> found_file_in(e, line.path) is Some
                } by {
                    if k > 0 {
                        assert(flatten_entry(e, depth)[k] == rest[k - 1]);
                    }
                }
            }
        },
        EntryModel::File(f) => {
            assert(same_path_spec(f.path, f.path));
        },
    }
}

/// Every line of the tree leads back to the entry it shows: looking a folder line's
/// path up among the folders, or a file line's path among the files, finds one.
pub proof fn law_flat_lines_lead_to_entries(s: Seq<EntryModel>, depth: int)
    ensures
        forall|k: int|
            0 <= k < flatten_entries(s, depth).len() ==> {
                let line = #[trigger] flatten_entries(s, depth)[k];
                &&& line.kind == ItemType::Folder ==> found_folder(s, line.path) is Some
                &&& line.kind == ItemType::File ==> found_file(s, line.path) is Some
            },
    decreases s,
{
    if s.len() > 0 {
        let t = s.drop_last();
        let e = s.last();
        law_flat_lines_lead_to_entries(t, depth);
        law_flat_entry_lines_lead_to_entries(e, depth);
        let a = flatten_entries(t, depth);
        let b = flatten_entry(e, depth);
        assert forall|k: int| 0 <= k < flatten_entries(s, depth).len() implies {
            let line = #[trigger] flatten_entries(s, depth)[k];
            &&& line.kind == ItemType::Folder ==> found_folder(s, line.path) is Some
            &&& line.kind == ItemType::File ==> found_file(s, line.path) is Some
        } by {
            let line = flatten_entries(s, depth)[k];
            if k < a.len() {
                assert(line == a[k]);
            } else {
                assert(line == b[k - a.len()]);
                if line.kind == ItemType::Folder {
                    lemma_found_folder_at(s, s.len() - 1, line.path);
                }
                if line.kind == ItemType::File {
                    lemma_found_file_at(s, s.len() - 1, line.path);
                }
            }
        }
    }
}

} // verus!
