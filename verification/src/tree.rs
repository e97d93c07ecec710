use vstd::prelude::*;

use crate::color::Color;
use crate::order::{as_ints, pick, reconcile_order, reconciled_indices, texts};

verus! {

/// What a folder of a notebook holds, as its manifest says.
#[derive(Clone, Copy, Debug, PartialEq, Eq, Hash, Structural)]
pub enum ItemType {
    Project,
    Folder,
    File,
    Page,
}

/// The manifest stored in each folder of a notebook.
#[derive(Debug)]
pub struct Manifest {
    pub item_type: ItemType,
    pub name: String,
    pub color: Color,
    /// Whether the tree view shows what the folder holds.
    pub is_open: bool,
    /// The names of the children's folders, in the order they are shown.
    pub order: Vec<String>,
}

/// What a manifest holds, as plain values.
pub struct ManifestModel {
    pub item_type: ItemType,
    pub name: Seq<char>,
    pub color: Color,
    pub is_open: bool,
    pub order: Seq<Seq<char>>,
}

impl View for Manifest {
    type V = ManifestModel;

    open spec fn view(&self) -> ManifestModel {
        ManifestModel {
            item_type: self.item_type,
            name: self.name@,
            color: self.color,
            is_open: self.is_open,
            order: texts(self.order@),
        }
    }
}

/// A page of a file: a folder with its manifest.
#[derive(Debug)]
pub struct FastnotePage {
    /// The page's folder.
    pub path: String,
    /// The name of the page's folder within its file.
    pub dir_name: String,
    pub manifest: Manifest,
}

/// A file of a notebook: a folder of pages.
#[derive(Debug)]
pub struct FastnoteFile {
    pub path: String,
    pub dir_name: String,
    pub manifest: Manifest,
    pub children: Vec<FastnotePage>,
}

/// A folder of a notebook.
#[derive(Debug)]
pub struct FastnoteFolder {
    pub path: String,
    pub dir_name: String,
    pub manifest: Manifest,
    pub children: Vec<FolderEntry>,
}

/// What a project or a folder holds.
#[derive(Debug)]
pub enum FolderEntry {
    Folder(FastnoteFolder),
    File(FastnoteFile),
}

/// A notebook: the root folder and what it holds.
#[derive(Debug)]
pub struct FastnoteProject {
    pub path: String,
    pub manifest: Manifest,
    pub children: Vec<FolderEntry>,
}

pub struct PageModel {
    pub path: Seq<char>,
    pub dir_name: Seq<char>,
    pub manifest: ManifestModel,
}

pub struct FileModel {
    pub path: Seq<char>,
    pub dir_name: Seq<char>,
    pub manifest: ManifestModel,
    pub pages: Seq<PageModel>,
}

pub enum EntryModel {
    Folder {
        path: Seq<char>,
        dir_name: Seq<char>,
        manifest: ManifestModel,
        children: Seq<EntryModel>,
    },
    File(FileModel),
}

pub struct ProjectModel {
    pub path: Seq<char>,
    pub manifest: ManifestModel,
    pub children: Seq<EntryModel>,
}

impl View for FastnotePage {
    type V = PageModel;

    open spec fn view(&self) -> PageModel {
        PageModel { path: self.path@, dir_name: self.dir_name@, manifest: self.manifest@ }
    }
}

pub open spec fn pages_view(s: Seq<FastnotePage>) -> Seq<PageModel> {
    s.map_values(|p: FastnotePage| p@)
}

impl View for FastnoteFile {
    type V = FileModel;

    open spec fn view(&self) -> FileModel {
        FileModel {
            path: self.path@,
            dir_name: self.dir_name@,
            manifest: self.manifest@,
            pages: pages_view(self.children@),
        }
    }
}

pub open spec fn entry_view(e: FolderEntry) -> EntryModel
    decreases e,
{
    match e {
        FolderEntry::Folder(f) => EntryModel::Folder {
            path: f.path@,
            dir_name: f.dir_name@,
            manifest: f.manifest@,
            children: entries_view(f.children@),
        },
        FolderEntry::File(f) => EntryModel::File(f@),
    }
}

pub open spec fn entries_view(s: Seq<FolderEntry>) -> Seq<EntryModel>
    decreases s,
{
    if s.len() == 0 {
        Seq::empty()
    } else {
        entries_view(s.drop_last()).push(entry_view(s.last()))
    }
}

} // verus!
verus! {

pub proof fn lemma_entries_view(s: Seq<FolderEntry>)
    ensures
        entries_view(s).len() == s.len(),
        forall|k: int| 0 <= k < s.len() ==> #[trigger] entries_view(s)[k] == entry_view(s[k]),
    decreases s.len(),
{
    if s.len() > 0 {
        lemma_entries_view(s.drop_last());
        assert forall|k: int| 0 <= k < s.len() implies #[trigger] entries_view(s)[k] == entry_view(s[k]) by {
            if k < s.len() - 1 {
                assert(s.drop_last()[k] == s[k]);
            }
        }
    }
}

fn copy_strings(v: &Vec<String>) -> (r: Vec<String>)
    ensures
        r@ == v@,
{
    let r = v.clone();
    assert(r@ =~= v@);
    r
}

/// The names of the pages' folders.
pub open spec fn page_names(s: Seq<PageModel>) -> Seq<Seq<char>> {
    s.map_values(|p: PageModel| p.dir_name)
}

/// The name of an entry's folder.
pub open spec fn entry_name(e: EntryModel) -> Seq<char> {
    match e {
        EntryModel::Folder { dir_name, .. } => dir_name,
        EntryModel::File(f) => f.dir_name,
    }
}

/// The names of the entries' folders.
pub open spec fn entry_names(s: Seq<EntryModel>) -> Seq<Seq<char>> {
    s.map_values(|e: EntryModel| entry_name(e))
}

/// A file after its pages are arranged by the order its manifest saved, and that
/// order is made to list exactly its pages.
pub open spec fn reordered_file(f: FileModel) -> FileModel {
    let idx = reconciled_indices(page_names(f.pages), f.manifest.order);
    let pages = pick(f.pages, idx);
    FileModel { pages, manifest: ManifestModel { order: page_names(pages), ..f.manifest }, ..f }
}

/// The arrangement of a sequence of children by the order a manifest saved.
pub open spec fn reordered_entries(children: Seq<EntryModel>, saved: Seq<Seq<char>>) -> Seq<
    EntryModel,
> {
    pick(children, reconciled_indices(entry_names(children), saved))
}

impl Manifest {
    /// A copy of the manifest.
    pub fn copied(&self) -> (r: Manifest)
        ensures
            r@ == self@,
    {
        Manifest {
            item_type: self.item_type,
            name: self.name.clone(),
            color: self.color,
            is_open: self.is_open,
            order: copy_strings(&self.order),
        }
    }
}

impl FastnotePage {
    /// A copy of the page.
    pub fn copied(&self) -> (r: FastnotePage)
        ensures
            r@ == self@,
    {
        FastnotePage {
            path: self.path.clone(),
            dir_name: self.dir_name.clone(),
            manifest: self.manifest.copied(),
        }
    }
}

fn copy_pages(v: &Vec<FastnotePage>) -> (r: Vec<FastnotePage>)
    ensures
        pages_view(r@) == pages_view(v@),
{
    let mut r: Vec<FastnotePage> = Vec::new();
    for i in 0..v.len()
        invariant
            r@.len() == i,
            pages_view(r@) == pages_view(v@).take(i as int),
    {
        r.push(v[i].copied());
        assert(pages_view(r@) =~= pages_view(v@).take(i + 1));
    }
    assert(pages_view(v@).take(v.len() as int) =~= pages_view(v@));
    r
}

impl FastnoteFile {
    /// A copy of the file.
    pub fn copied(&self) -> (r: FastnoteFile)
        ensures
            r@ == self@,
    {
        FastnoteFile {
            path: self.path.clone(),
            dir_name: self.dir_name.clone(),
            manifest: self.manifest.copied(),
            children: copy_pages(&self.children),
        }
    }

    /// Arranges the pages by the order the manifest saved (by their present order when
    /// none was saved), drops from that order what is not a page, and adds the pages it
    /// did not list after the others. Saving the manifest is left to the caller.
    pub fn update_page_order(&mut self)
        ensures
            final(self)@ == reordered_file(old(self)@),
    {
        let ghost old_view = self@;
        let mut names: Vec<String> = Vec::new();
        for i in 0..self.children.len()
            invariant
                self@ == old_view,
                names@.len() == i,
                texts(names@) == page_names(old_view.pages).take(i as int),
        {
            names.push(self.children[i].dir_name.clone());
            assert(texts(names@) =~= page_names(old_view.pages).take(i + 1));
        }
        assert(page_names(old_view.pages).take(self.children.len() as int) =~= page_names(
            old_view.pages,
        ));
        let idx = reconcile_order(&names, &self.manifest.order);
        let ghost m = reconciled_indices(page_names(old_view.pages), old_view.manifest.order);
        let mut pages: Vec<FastnotePage> = Vec::new();
        let mut order: Vec<String> = Vec::new();
        for k in 0..idx.len()
            invariant
                self@ == old_view,
                as_ints(idx@) == m,
                forall|j: int| 0 <= j < idx@.len() ==> #[trigger] idx@[j] < names@.len(),
                names@.len() == self.children@.len(),
                pages@.len() == k,
                order@.len() == k,
                pages_view(pages@) == pick(old_view.pages, m).take(k as int),
                texts(order@) == page_names(pick(old_view.pages, m)).take(k as int),
        {
            assert(as_ints(idx@)[k as int] == m[k as int]);
            let p = self.children[idx[k]].copied();
            order.push(p.dir_name.clone());
            pages.push(p);
            assert(pages_view(pages@) =~= pick(old_view.pages, m).take(k + 1));
            assert(texts(order@) =~= page_names(pick(old_view.pages, m)).take(k + 1));
        }
        assert(pick(old_view.pages, m).take(idx.len() as int) =~= pick(old_view.pages, m));
        assert(page_names(pick(old_view.pages, m)).take(idx.len() as int) =~= page_names(
            pick(old_view.pages, m),
        ));
        self.children = pages;
        self.manifest.order = order;
    }
}

} // verus!
verus! {

/// A folder, seen as an entry.
pub open spec fn folder_view(f: FastnoteFolder) -> EntryModel {
    EntryModel::Folder {
        path: f.path@,
        dir_name: f.dir_name@,
        manifest: f.manifest@,
        children: entries_view(f.children@),
    }
}

impl View for FastnoteProject {
    type V = ProjectModel;

    open spec fn view(&self) -> ProjectModel {
        ProjectModel {
            path: self.path@,
            manifest: self.manifest@,
            children: entries_view(self.children@),
        }
    }
}

/// Two sequences of entries that agree entry by entry have the same view.
pub proof fn lemma_entries_view_ext(a: Seq<FolderEntry>, b: Seq<FolderEntry>)
    requires
        a.len() == b.len(),
        forall|k: int| 0 <= k < a.len() ==> entry_view(#[trigger] a[k]) == entry_view(b[k]),
    ensures
        entries_view(a) == entries_view(b),
{
    lemma_entries_view(a);
    lemma_entries_view(b);
    assert(entries_view(a) =~= entries_view(b));
}

impl FastnoteFolder {
    /// A copy of the folder and of all it holds.
    pub fn copied(&self) -> (r: FastnoteFolder)
        ensures
            folder_view(r) == folder_view(*self),
        decreases self,
    {
        FastnoteFolder {
            path: self.path.clone(),
            dir_name: self.dir_name.clone(),
            manifest: self.manifest.copied(),
            children: copy_entries(&self.children),
        }
    }
}

impl FolderEntry {
    /// A copy of the entry and of all it holds.
    pub fn copied(&self) -> (r: FolderEntry)
        ensures
            entry_view(r) == entry_view(*self),
        decreases self,
    {
        match self {
            FolderEntry::Folder(f) => FolderEntry::Folder(f.copied()),
            FolderEntry::File(f) => FolderEntry::File(f.copied()),
        }
    }
}

fn copy_entries(v: &Vec<FolderEntry>) -> (r: Vec<FolderEntry>)
    ensures
        entries_view(r@) == entries_view(v@),
    decreases v,
{
    let mut r: Vec<FolderEntry> = Vec::new();
    for i in 0..v.len()
        invariant
            r@.len() == i,
            forall|k: int| 0 <= k < i ==> entry_view(#[trigger] r@[k]) == entry_view(v@[k]),
    {
        assert(decreases_to!(v => v@[i as int]));
        let e = v[i].copied();
        r.push(e);
    }
    proof {
        lemma_entries_view_ext(r@, v@);
    }
    r
}

} // verus!
verus! {

/// The name of the folder of an entry.
pub fn entry_dir_name(e: &FolderEntry) -> (r: &String)
    ensures
        r@ == entry_name(entry_view(*e)),
{
    match e {
        FolderEntry::Folder(f) => &f.dir_name,
        FolderEntry::File(f) => &f.dir_name,
    }
}

/// Arranges `children` by the saved order (by their present order when none was saved)
/// and gives the names of the arranged children, which is the order to save.
fn reorder_entries(children: &Vec<FolderEntry>, saved: &Vec<String>) -> (r: (
    Vec<FolderEntry>,
    Vec<String>,
))
    ensures
        entries_view(r.0@) == reordered_entries(entries_view(children@), texts(saved@)),
        texts(r.1@) == entry_names(entries_view(r.0@)),
{
    let ghost cv = entries_view(children@);
    proof {
        lemma_entries_view(children@);
    }
    let mut names: Vec<String> = Vec::new();
    for i in 0..children.len()
        invariant
            cv == entries_view(children@),
            cv.len() == children@.len(),
            forall|k: int| 0 <= k < children@.len() ==> #[trigger] cv[k] == entry_view(children@[k]),
            names@.len() == i,
            texts(names@) == entry_names(cv).take(i as int),
    {
        names.push(entry_dir_name(&children[i]).clone());
        assert(texts(names@) =~= entry_names(cv).take(i + 1));
    }
    assert(entry_names(cv).take(children.len() as int) =~= entry_names(cv));
    let idx = reconcile_order(&names, saved);
    let ghost m = reconciled_indices(entry_names(cv), texts(saved@));
    let mut out: Vec<FolderEntry> = Vec::new();
    let mut order: Vec<String> = Vec::new();
    for k in 0..idx.len()
        invariant
            cv == entries_view(children@),
            cv.len() == children@.len(),
            forall|j: int| 0 <= j < children@.len() ==> #[trigger] cv[j] == entry_view(children@[j]),
            as_ints(idx@) == m,
            forall|j: int| 0 <= j < idx@.len() ==> #[trigger] idx@[j] < names@.len(),
            names@.len() == children@.len(),
            out@.len() == k,
            order@.len() == k,
            forall|j: int| 0 <= j < k ==> entry_view(#[trigger] out@[j]) == pick(cv, m)[j],
            texts(order@) == entry_names(pick(cv, m)).take(k as int),
    {
        assert(as_ints(idx@)[k as int] == m[k as int]);
        let e = children[idx[k]].copied();
        order.push(entry_dir_name(&e).clone());
        out.push(e);
        assert(texts(order@) =~= entry_names(pick(cv, m)).take(k + 1));
    }
    proof {
        lemma_entries_view(out@);
        assert(entries_view(out@) =~= pick(cv, m));
        assert(entry_names(pick(cv, m)).take(idx.len() as int) =~= entry_names(pick(cv, m)));
    }
    (out, order)
}

impl FastnoteFolder {
    /// Arranges the children by the order the manifest saved (by their present order
    /// when none was saved), drops from that order what is not a child, and adds the
    /// children it did not list after the others. Saving the manifest is left to the caller.
    pub fn update_page_order(&mut self)
        ensures
            folder_view(*final(self)) == reordered_folder(folder_view(*old(self))),
    {
        let (children, order) = reorder_entries(&self.children, &self.manifest.order);
        self.children = children;
        self.manifest.order = order;
    }
}

/// A folder after its children are arranged by the order its manifest saved, and that
/// order is made to list exactly its children.
pub open spec fn reordered_folder(e: EntryModel) -> EntryModel {
    match e {
        EntryModel::Folder { path, dir_name, manifest, children } => {
            let c = reordered_entries(children, manifest.order);
            EntryModel::Folder {
                path,
                dir_name,
                manifest: ManifestModel { order: entry_names(c), ..manifest },
                children: c,
            }
        },
        EntryModel::File(_) => e,
    }
}

/// A project after its children are arranged by the order its manifest saved, and that
/// order is made to list exactly its children.
pub open spec fn reordered_project(p: ProjectModel) -> ProjectModel {
    let children = reordered_entries(p.children, p.manifest.order);
    ProjectModel {
        children,
        manifest: ManifestModel { order: entry_names(children), ..p.manifest },
        ..p
    }
}

impl FastnoteProject {
    /// Arranges the children by the order the manifest saved (by their present order
    /// when none was saved), drops from that order what is not a child, and adds the
    /// children it did not list after the others. Saving the manifest is left to the caller.
    pub fn update_page_order(&mut self)
        ensures
            final(self)@ == reordered_project(old(self)@),
    {
        let (children, order) = reorder_entries(&self.children, &self.manifest.order);
        self.children = children;
        self.manifest.order = order;
    }
}

} // verus!
verus! {

/// The names of picked pages are the picked names.
pub proof fn lemma_page_names_pick(pages: Seq<PageModel>, idx: Seq<int>)
    requires
        forall|k: int| 0 <= k < idx.len() ==> 0 <= #[trigger] idx[k] < pages.len(),
    ensures
        page_names(pick(pages, idx)) == pick(page_names(pages), idx),
{
    assert(page_names(pick(pages, idx)) =~= pick(page_names(pages), idx));
}

/// The names of picked entries are the picked names.
pub proof fn lemma_entry_names_pick(entries: Seq<EntryModel>, idx: Seq<int>)
    requires
        forall|k: int| 0 <= k < idx.len() ==> 0 <= #[trigger] idx[k] < entries.len(),
    ensures
        entry_names(pick(entries, idx)) == pick(entry_names(entries), idx),
{
    assert(entry_names(pick(entries, idx)) =~= pick(entry_names(entries), idx));
}

/// Arranging a file's pages a second time changes nothing: once arranged, the pages
/// and the saved order agree. (Pages of one file are folders of one directory, so
/// their names are distinct.)
pub proof fn law_file_order_is_stable(f: FileModel)
    requires
        page_names(f.pages).no_duplicates(),
    ensures
        reordered_file(reordered_file(f)) == reordered_file(f),
{
    let names = page_names(f.pages);
    let idx = reconciled_indices(names, f.manifest.order);
    crate::order::lemma_merged_in_bounds(names, crate::order::effective_order(names, f.manifest.order));
    lemma_page_names_pick(f.pages, idx);
    crate::order::law_reconcile_is_idempotent(f.pages, names, f.manifest.order);
    let f2 = reordered_file(f);
    let names2 = page_names(f2.pages);
    assert(names2 == pick(names, idx));
    let idx2 = reconciled_indices(names2, f2.manifest.order);
    assert(pick(f2.pages, idx2) == f2.pages);
    let f3 = reordered_file(f2);
    assert(f3.pages == f2.pages);
    assert(f3.manifest.order == f2.manifest.order);
}

/// Arranging a project's children a second time changes nothing. (Children of one
/// folder are folders of one directory, so their names are distinct.)
pub proof fn law_project_order_is_stable(p: ProjectModel)
    requires
        entry_names(p.children).no_duplicates(),
    ensures
        reordered_project(reordered_project(p)) == reordered_project(p),
{
    let names = entry_names(p.children);
    let idx = reconciled_indices(names, p.manifest.order);
    crate::order::lemma_merged_in_bounds(names, crate::order::effective_order(names, p.manifest.order));
    lemma_entry_names_pick(p.children, idx);
    crate::order::law_reconcile_is_idempotent(p.children, names, p.manifest.order);
    let p2 = reordered_project(p);
    assert(entry_names(p2.children) == pick(names, idx));
    let p3 = reordered_project(p2);
    assert(p3.children == p2.children);
    assert(p3.manifest.order == p2.manifest.order);
}

/// Arranging a folder's children a second time changes nothing. (Children of one
/// folder are folders of one directory, so their names are distinct.)
pub proof fn law_folder_order_is_stable(e: EntryModel)
    requires
        e is Folder,
        entry_names(e->children).no_duplicates(),
    ensures
        reordered_folder(reordered_folder(e)) == reordered_folder(e),
{
    let children = e->children;
    let saved = e->manifest.order;
    let names = entry_names(children);
    let idx = reconciled_indices(names, saved);
    crate::order::lemma_merged_in_bounds(names, crate::order::effective_order(names, saved));
    lemma_entry_names_pick(children, idx);
    crate::order::law_reconcile_is_idempotent(children, names, saved);
    let e2 = reordered_folder(e);
    assert(entry_names(e2->children) == pick(names, idx));
    let e3 = reordered_folder(e2);
    assert(e3->children == e2->children);
    assert(e3->manifest.order == e2->manifest.order);
    assert(e3->manifest == e2->manifest);
}

/// When a file's page names and its saved order have no repeats, arranging the pages
/// keeps every page exactly once.
pub proof fn law_file_order_keeps_every_page(f: FileModel)
    requires
        page_names(f.pages).no_duplicates(),
        f.manifest.order.no_duplicates(),
    ensures
        reordered_file(f).pages.len() == f.pages.len(),
        page_names(reordered_file(f).pages).no_duplicates(),
        forall|i: int| 0 <= i < f.pages.len() ==> reordered_file(f).pages.contains(f.pages[i]),
{
    let names = page_names(f.pages);
    let idx = reconciled_indices(names, f.manifest.order);
    crate::order::law_reconcile_is_permutation(names, f.manifest.order);
    lemma_page_names_pick(f.pages, idx);
    let pages2 = reordered_file(f).pages;
    assert(pages2 == pick(f.pages, idx));
    crate::order::lemma_pick(f.pages, idx);
    assert forall|i: int| 0 <= i < f.pages.len() implies pages2.contains(f.pages[i]) by {
        assert(idx.contains(i));
        let k = choose|k: int| 0 <= k < idx.len() && idx[k] == i;
        assert(pages2[k] == f.pages[i]);
    }
    let n2 = page_names(pages2);
    assert forall|a: int, b: int| 0 <= a < n2.len() && 0 <= b < n2.len() && a != b implies n2[a] != n2[b] by {
        assert(n2[a] == names[idx[a]] && n2[b] == names[idx[b]]);
    }
}

} // verus!
verus! {

impl FastnoteFile {
    /// The pages of the file as the page list shows them: each page's folder and the
    /// name of that folder, in the file's order.
    pub fn page_entries(&self) -> (r: Vec<(String, String)>)
        ensures
            r@.len() == self.children@.len(),
            forall|i: int|
                0 <= i < r@.len() ==> {
                    &&& (#[trigger] r@[i]).0@ == self.children@[i].path@
                    &&& r@[i].1@ == self.children@[i].dir_name@
                },
    {
        let mut out: Vec<(String, String)> = Vec::new();
        let mut i: usize = 0;
        while i < self.children.len()
            invariant
                0 <= i <= self.children@.len(),
                out@.len() == i,
                forall|k: int|
                    0 <= k < i ==> {
                        &&& (#[trigger] out@[k]).0@ == self.children@[k].path@
                        &&& out@[k].1@ == self.children@[k].dir_name@
                    },
            decreases self.children@.len() - i,
        {
            let page = &self.children[i];
            out.push((page.path.clone(), page.dir_name.clone()));
            i = i + 1;
        }
        out
    }
}

} // verus!
