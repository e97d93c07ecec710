use vstd::prelude::*;

use crate::names::{same_path, same_path_spec};
use crate::tree::{
    entries_view, entry_view, folder_view, lemma_entries_view, EntryModel, FastnoteFile,
    FastnoteFolder, FileModel,
    FolderEntry, ManifestModel,
};

verus! {

/// The entry with the folder's "open" flag flipped when its path is `path`, else with
/// the first folder below it (in the tree's order) whose path is `path` flipped; and
/// whether such a folder was found.
pub open spec fn toggled_entry(e: EntryModel, path: Seq<char>) -> (EntryModel, bool)
    decreases e,
{
    match e {
        EntryModel::Folder { path: p, dir_name, manifest, children } => {
            if same_path_spec(p, path) {
                (
                    EntryModel::Folder {
                        path: p,
                        dir_name,
                        manifest: ManifestModel { is_open: !manifest.is_open, ..manifest },
                        children,
                    },
                    true,
                )
            } else {
                let (c, found) = toggled_entries(children, path);
                (EntryModel::Folder { path: p, dir_name, manifest, children: c }, found)
            }
        },
        EntryModel::File(_) => (e, false),
    }
}

/// The entries with the first folder (in the tree's order) whose path is `path`
/// toggled open or closed, and whether such a folder was found.
pub open spec fn toggled_entries(s: Seq<EntryModel>, path: Seq<char>) -> (Seq<EntryModel>, bool)
    decreases s,
{
    if s.len() == 0 {
        (s, false)
    } else {
        let (a, found) = toggled_entries(s.drop_last(), path);
        if found {
            (a.push(s.last()), true)
        } else {
            let (e, f) = toggled_entry(s.last(), path);
            (a.push(e), f)
        }
    }
}

/// Where nothing was found, nothing changed.
pub proof fn lemma_toggle_not_found(s: Seq<EntryModel>, path: Seq<char>)
    ensures
        !toggled_entries(s, path).1 ==> toggled_entries(s, path).0 == s,
        toggled_entries(s, path).0.len() == s.len(),
    decreases s,
{
    if s.len() > 0 {
        lemma_toggle_not_found(s.drop_last(), path);
        lemma_toggle_entry_not_found(s.last(), path);
        if !toggled_entries(s, path).1 {
            assert(toggled_entries(s, path).0 =~= s);
        }
    }
}

pub proof fn lemma_toggle_entry_not_found(e: EntryModel, path: Seq<char>)
    ensures
        !toggled_entry(e, path).1 ==> toggled_entry(e, path).0 == e,
    decreases e,
{
    match e {
        EntryModel::Folder { path: p, children, .. } => {
            if p != path {
                lemma_toggle_not_found(children, path);
            }
        },
        EntryModel::File(_) => {},
    }
}

/// Once a prefix found the folder, the rest stays as it was.
pub proof fn lemma_toggle_found_prefix(s: Seq<EntryModel>, path: Seq<char>, j: int)
    requires
        0 <= j <= s.len(),
        toggled_entries(s.take(j), path).1,
    ensures
        toggled_entries(s, path) == (toggled_entries(s.take(j), path).0 + s.skip(j), true),
    decreases s.len() - j,
{
    if j < s.len() {
        let t = s.drop_last();
        assert(t.take(j) =~= s.take(j));
        lemma_toggle_found_prefix(t, path, j);
        assert(t.skip(j).push(s.last()) =~= s.skip(j));
        assert(toggled_entries(s.take(j), path).0 + t.skip(j).push(s.last()) =~= (toggled_entries(
            s.take(j),
            path,
        ).0 + t.skip(j)).push(s.last()));
    } else {
        assert(s.take(j) =~= s);
        assert(toggled_entries(s, path).0 + s.skip(j) =~= toggled_entries(s, path).0);
    }
}

/// Flips the "open" flag of the first folder (in the tree's order) whose path is `path`;
/// tells whether there was one.
pub fn toggle_folder_open(entries: &mut Vec<FolderEntry>, path: &String) -> (found: bool)
    ensures
        (entries_view(final(entries)@), found) == toggled_entries(entries_view(old(entries)@), path@),
    decreases entries_view(old(entries)@),
{
    let ghost old_view = entries_view(entries@);
    proof {
        lemma_entries_view(entries@);
    }
    let n = entries.len();
    let mut i: usize = 0;
    while i < n
        invariant
            n == entries@.len(),
            0 <= i <= n,
            old_view == entries_view(entries@),
            old_view == entries_view(old(entries)@),
            old_view.len() == n,
            forall|k: int| 0 <= k < n ==> #[trigger] old_view[k] == entry_view(entries@[k]),
            toggled_entries(old_view.take(i as int), path@) == (old_view.take(i as int), false),
        decreases n - i,
    {
        assert(old_view.take(i + 1).drop_last() =~= old_view.take(i as int));
        let ghost prev = entries@;
        assert(decreases_to!(old_view => old_view[i as int]));
        let found = toggle_entry_open(&mut entries[i], path);
        proof {
            lemma_toggle_not_found(old_view.take(i as int), path@);
            lemma_toggle_entry_not_found(old_view[i as int], path@);
        }
        if found {
            proof {
                lemma_entries_view(entries@);
                lemma_toggle_found_prefix(old_view, path@, i + 1);
                let e2 = toggled_entry(old_view[i as int], path@).0;
                assert(toggled_entries(old_view.take(i + 1), path@).0 == old_view.take(i as int).push(e2));
                let want = old_view.take(i as int).push(e2) + old_view.skip(i + 1);
                assert forall|k: int| 0 <= k < n implies #[trigger] entries_view(entries@)[k] == want[k] by {
                    if k != i {
                        assert(entries@[k] == prev[k]);
                        assert(entry_view(prev[k]) == old_view[k]);
                    }
                }
                assert(entries_view(entries@) =~= want);
            }
            return true;
        }
        proof {
            lemma_entries_view(entries@);
            assert forall|k: int| 0 <= k < n implies #[trigger] old_view[k] == entry_view(entries@[k]) by {
                if k != i {
                    assert(entries@[k] == prev[k]);
                }
            }
            assert(entries_view(entries@) =~= old_view);
            assert(old_view.take(i + 1) =~= old_view.take(i as int).push(old_view[i as int]));
        }
        i = i + 1;
    }
    assert(old_view.take(n as int) =~= old_view);
    false
}

fn toggle_entry_open(entry: &mut FolderEntry, path: &String) -> (found: bool)
    ensures
        (entry_view(*final(entry)), found) == toggled_entry(entry_view(*old(entry)), path@),
    decreases entry_view(*old(entry)),
{
    match entry {
        FolderEntry::Folder(f) => {
            if same_path(f.path.as_str(), path.as_str()) {
                f.manifest.is_open = !f.manifest.is_open;
                true
            } else {
                proof {
                    let ev = entry_view(*old(entry));
                    assert(ev matches EntryModel::Folder { children, .. } && children == entries_view(f.children@));
                    assert(decreases_to!(ev => entries_view(f.children@)));
                }
                toggle_folder_open(&mut f.children, path)
            }
        },
        FolderEntry::File(_) => false,
    }
}

} // verus!
verus! {

/// Toggling the same folder twice gives back the tree as it was.
pub proof fn law_toggle_twice_restores(s: Seq<EntryModel>, path: Seq<char>)
    ensures
        toggled_entries(toggled_entries(s, path).0, path) == (s, toggled_entries(s, path).1),
    decreases s,
{
    if s.len() > 0 {
        let t = s.drop_last();
        let last = s.last();
        law_toggle_twice_restores(t, path);
        lemma_toggle_not_found(t, path);
        let (a, f) = toggled_entries(t, path);
        if f {
            let s2 = a.push(last);
            assert(s2.drop_last() =~= a);
            assert(toggled_entries(s2, path) == (t.push(last), true));
            assert(t.push(last) =~= s);
        } else {
            let (e, f2) = toggled_entry(last, path);
            law_toggle_entry_twice_restores(last, path);
            let s2 = t.push(e);
            assert(s2.drop_last() =~= t);
            assert(toggled_entries(s2, path) == (t.push(last), f2));
            assert(t.push(last) =~= s);
        }
    }
}

/// Toggling the same folder of an entry twice gives back the entry as it was.
pub proof fn law_toggle_entry_twice_restores(e: EntryModel, path: Seq<char>)
    ensures
        toggled_entry(toggled_entry(e, path).0, path) == (e, toggled_entry(e, path).1),
    decreases e,
{
    match e {
        EntryModel::Folder { path: p, dir_name, manifest, children } => {
            if p != path {
                law_toggle_twice_restores(children, path);
            } else {
                assert(ManifestModel { is_open: !!manifest.is_open, ..manifest } == manifest);
            }
        },
        EntryModel::File(_) => {},
    }
}

/// The first folder (in the tree's order) of the entries whose path is `path`.
pub open spec fn found_folder(s: Seq<EntryModel>, path: Seq<char>) -> Option<EntryModel>
    decreases s,
{
    if s.len() == 0 {
        None
    } else {
        let a = found_folder(s.drop_last(), path);
        if a is Some {
            a
        } else {
            found_folder_in(s.last(), path)
        }
    }
}

/// The entry when it is a folder whose path is `path`, else the first such folder below it.
pub open spec fn found_folder_in(e: EntryModel, path: Seq<char>) -> Option<EntryModel>
    decreases e,
{
    match e {
        EntryModel::Folder { path: p, children, .. } => {
            if same_path_spec(p, path) {
                Some(e)
            } else {
                found_folder(children, path)
            }
        },
        EntryModel::File(_) => None,
    }
}

/// A folder is found exactly where toggling finds one to flip.
pub proof fn law_found_iff_toggled(s: Seq<EntryModel>, path: Seq<char>)
    ensures
        (found_folder(s, path) is Some) == toggled_entries(s, path).1,
    decreases s,
{
    if s.len() > 0 {
        law_found_iff_toggled(s.drop_last(), path);
        law_found_in_iff_toggled(s.last(), path);
    }
}

pub proof fn law_found_in_iff_toggled(e: EntryModel, path: Seq<char>)
    ensures
        (found_folder_in(e, path) is Some) == toggled_entry(e, path).1,
    decreases e,
{
    match e {
        EntryModel::Folder { path: p, children, .. } => {
            if p != path {
                law_found_iff_toggled(children, path);
            }
        },
        EntryModel::File(_) => {},
    }
}

/// The first folder (in the tree's order) among `entries` whose path is `path`.
pub fn find_folder<'a>(entries: &'a Vec<FolderEntry>, path: &String) -> (r: Option<
    &'a FastnoteFolder,
>)
    ensures
        match r {
            Some(f) => found_folder(entries_view(entries@), path@) == Some(folder_view(*f)),
            None => found_folder(entries_view(entries@), path@) is None,
        },
    decreases entries_view(entries@),
{
    let ghost ev = entries_view(entries@);
    proof {
        lemma_entries_view(entries@);
    }
    let n = entries.len();
    let mut i: usize = 0;
    while i < n
        invariant
            n == entries@.len(),
            0 <= i <= n,
            ev == entries_view(entries@),
            ev.len() == n,
            forall|k: int| 0 <= k < n ==> #[trigger] ev[k] == entry_view(entries@[k]),
            found_folder(ev.take(i as int), path@) is None,
        decreases n - i,
    {
        assert(ev.take(i + 1).drop_last() =~= ev.take(i as int));
        assert(decreases_to!(ev => ev[i as int]));
        let r = find_folder_in(&entries[i], path);
        if let Some(f) = r {
            proof {
                lemma_found_prefix(ev, path@, i + 1);
            }
            return Some(f);
        }
        i = i + 1;
    }
    assert(ev.take(n as int) =~= ev);
    None
}

/// Once a prefix holds the folder, it is the one found.
pub proof fn lemma_found_prefix(s: Seq<EntryModel>, path: Seq<char>, j: int)
    requires
        0 <= j <= s.len(),
        found_folder(s.take(j), path) is Some,
    ensures
        found_folder(s, path) == found_folder(s.take(j), path),
    decreases s.len() - j,
{
    if j < s.len() {
        let t = s.drop_last();
        assert(t.take(j) =~= s.take(j));
        lemma_found_prefix(t, path, j);
    } else {
        assert(s.take(j) =~= s);
    }
}

fn find_folder_in<'a>(entry: &'a FolderEntry, path: &String) -> (r: Option<&'a FastnoteFolder>)
    ensures
        match r {
            Some(f) => found_folder_in(entry_view(*entry), path@) == Some(folder_view(*f)),
            None => found_folder_in(entry_view(*entry), path@) is None,
        },
    decreases entry_view(*entry),
{
    match entry {
        FolderEntry::Folder(f) => {
            if same_path(f.path.as_str(), path.as_str()) {
                Some(f)
            } else {
                assert(decreases_to!(entry_view(*entry) => entries_view(f.children@)));
                find_folder(&f.children, path)
            }
        },
        FolderEntry::File(_) => None,
    }
}

} // verus!
verus! {

/// The first file (in the tree's order) of the entries whose path is `path`.
pub open spec fn found_file(s: Seq<EntryModel>, path: Seq<char>) -> Option<FileModel>
    decreases s,
{
    if s.len() == 0 {
        None
    } else {
        let a = found_file(s.drop_last(), path);
        if a is Some {
            a
        } else {
            found_file_in(s.last(), path)
        }
    }
}

/// The entry when it is a file whose path is `path`, else the first such file below it.
pub open spec fn found_file_in(e: EntryModel, path: Seq<char>) -> Option<FileModel>
    decreases e,
{
    match e {
        EntryModel::Folder { children, .. } => found_file(children, path),
        EntryModel::File(f) => {
            if same_path_spec(f.path, path) {
                Some(f)
            } else {
                None
            }
        },
    }
}

/// Once a prefix holds the file, it is the one found.
pub proof fn lemma_found_file_prefix(s: Seq<EntryModel>, path: Seq<char>, j: int)
    requires
        0 <= j <= s.len(),
        found_file(s.take(j), path) is Some,
    ensures
        found_file(s, path) == found_file(s.take(j), path),
    decreases s.len() - j,
{
    if j < s.len() {
        let t = s.drop_last();
        assert(t.take(j) =~= s.take(j));
        lemma_found_file_prefix(t, path, j);
    } else {
        assert(s.take(j) =~= s);
    }
}

/// The first file (in the tree's order) among `entries` whose path is `path`.
pub fn find_file<'a>(entries: &'a Vec<FolderEntry>, path: &String) -> (r: Option<
    &'a FastnoteFile,
>)
    ensures
        match r {
            Some(f) => found_file(entries_view(entries@), path@) == Some(f@),
            None => found_file(entries_view(entries@), path@) is None,
        },
    decreases entries_view(entries@),
{
    let ghost ev = entries_view(entries@);
    proof {
        lemma_entries_view(entries@);
    }
    let n = entries.len();
    let mut i: usize = 0;
    while i < n
        invariant
            n == entries@.len(),
            0 <= i <= n,
            ev == entries_view(entries@),
            ev.len() == n,
            forall|k: int| 0 <= k < n ==> #[trigger] ev[k] == entry_view(entries@[k]),
            found_file(ev.take(i as int), path@) is None,
        decreases n - i,
    {
        assert(ev.take(i + 1).drop_last() =~= ev.take(i as int));
        assert(decreases_to!(ev => ev[i as int]));
        let r = find_file_in(&entries[i], path);
        if let Some(f) = r {
            proof {
                lemma_found_file_prefix(ev, path@, i + 1);
            }
            return Some(f);
        }
        i = i + 1;
    }
    assert(ev.take(n as int) =~= ev);
    None
}

fn find_file_in<'a>(entry: &'a FolderEntry, path: &String) -> (r: Option<&'a FastnoteFile>)
    ensures
        match r {
            Some(f) => found_file_in(entry_view(*entry), path@) == Some(f@),
            None => found_file_in(entry_view(*entry), path@) is None,
        },
    decreases entry_view(*entry),
{
    match entry {
        FolderEntry::Folder(f) => {
            assert(decreases_to!(entry_view(*entry) => entries_view(f.children@)));
            find_file(&f.children, path)
        },
        FolderEntry::File(f) => {
            if same_path(f.path.as_str(), path.as_str()) {
                Some(f)
            } else {
                None
            }
        },
    }
}

} // verus!
verus! {

/// A found folder with its "open" flag flipped.
pub open spec fn flipped(o: Option<EntryModel>) -> Option<EntryModel> {
    match o {
        Some(EntryModel::Folder { path, dir_name, manifest, children }) => Some(
            EntryModel::Folder {
                path,
                dir_name,
                manifest: ManifestModel { is_open: !manifest.is_open, ..manifest },
                children,
            },
        ),
        _ => o,
    }
}

/// Toggling the folder at `path` flips exactly the folder that looking `path` up finds:
/// afterwards the same lookup finds it with its "open" flag flipped.
pub proof fn law_toggle_flips_the_found_folder(s: Seq<EntryModel>, path: Seq<char>)
    ensures
        found_folder(toggled_entries(s, path).0, path) == flipped(found_folder(s, path)),
    decreases s,
{
    if s.len() > 0 {
        let t = s.drop_last();
        let e = s.last();
        law_toggle_flips_the_found_folder(t, path);
        law_found_iff_toggled(t, path);
        lemma_toggle_not_found(t, path);
        let (a, found) = toggled_entries(t, path);
        if found {
            let s2 = a.push(e);
            assert(s2.drop_last() =~= a);
            assert(found_folder(a, path) is Some);
        } else {
            law_toggle_entry_flips_the_found_folder(e, path);
            let s2 = a.push(toggled_entry(e, path).0);
            assert(s2.drop_last() =~= a);
            assert(a == t);
        }
    }
}

/// The same, within one entry.
pub proof fn law_toggle_entry_flips_the_found_folder(e: EntryModel, path: Seq<char>)
    ensures
        found_folder_in(toggled_entry(e, path).0, path) == flipped(found_folder_in(e, path)),
    decreases e,
{
    match e {
        EntryModel::Folder { path: p, children, .. } => {
            if !same_path_spec(p, path) {
                law_toggle_flips_the_found_folder(children, path);
            }
        },
        EntryModel::File(_) => {},
    }
}

} // verus!
