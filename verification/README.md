# fastnote

The verified core of Fastnote, a note-taking application for pen tablets. A notebook
(project) is a tree of directories on disk: folders, files, and in each file its pages.
Every directory holds a manifest giving its type, name, color, whether the tree shows it
open, and the saved order of its children. A page's strokes live in region files, each a
4 by 4 grid of chunks.

`src/` is the library, proved with Verus:

- `tree`, `order`, `tree_order`: the notebook model and how children are put in their
  saved order (`update_page_order`);
- `flat`, `navigate`, `projects`: the tree view's lines, opening and closing folders,
  finding entries, the list of opened projects;
- `create`, `names`, `modal`: new entries, folder names, and the dialogs;
- `chunks`, `region_cache`, `region_name`, `strokes`, `color`: where strokes go on a page,
  the regions kept in memory and their file names;
- `stylet`, `fingers`, `zoom`, `palette`, `state`, `errors`, `backup`: input handling,
  the pen palette, menus, timed error messages and the daily backup.

`app/` is a headless front end: it reads and writes the notebooks on disk (serde,
serde_json), makes the daily backup archive (tar, flate2), and holds the floating-point
geometry of strokes and of the view.

`tests/` runs the library on concrete values.
