use vstd::prelude::*;

verus! {

/// The menu the ribbon shows.
#[derive(Clone, Copy, Debug, PartialEq, Eq, Structural)]
pub enum MenuMode {
    File,
    Home,
    Insert,
    Draw,
    History,
    View,
    Edition,
}

/// The label of a menu.
pub open spec fn menu_label(m: MenuMode) -> Seq<char> {
    match m {
        MenuMode::File => "File"@,
        MenuMode::Home => "Home"@,
        MenuMode::Insert => "Insert"@,
        MenuMode::Draw => "Draw"@,
        MenuMode::History => "History"@,
        MenuMode::View => "View"@,
        MenuMode::Edition => "Edition"@,
    }
}

impl MenuMode {
    /// The label of the menu.
    pub fn as_str(&self) -> (r: &'static str)
        ensures
            r@ == menu_label(*self),
    {
        match self {
            MenuMode::File => "File",
            MenuMode::Home => "Home",
            MenuMode::Insert => "Insert",
            MenuMode::Draw => "Draw",
            MenuMode::History => "History",
            MenuMode::View => "View",
            MenuMode::Edition => "Edition",
        }
    }
}

impl Default for MenuMode {
    /// The application starts on the File menu.
    fn default() -> (r: MenuMode)
        ensures
            r == MenuMode::File,
    {
        MenuMode::File
    }
}

/// The menu shown after `chosen` was picked while `current` was shown, and whether
/// the theme editor opens: picking Edition opens the editor and keeps the menu.
pub fn set_menu(current: MenuMode, chosen: MenuMode) -> (r: (MenuMode, bool))
    ensures
        r == if chosen == MenuMode::Edition {
            (current, true)
        } else {
            (chosen, false)
        },
{
    if chosen == MenuMode::Edition {
        (current, true)
    } else {
        (chosen, false)
    }
}

/// Lines of text shown in the debug panel.
pub struct DebugInfo {
    pub lines: Vec<String>,
}

impl Default for DebugInfo {
    fn default() -> (r: DebugInfo)
        ensures
            r.lines@.len() == 0,
    {
        DebugInfo { lines: Vec::new() }
    }
}

impl DebugInfo {
    /// Adds a line at the end.
    pub fn push(&mut self, msg: String)
        ensures
            final(self).lines@ == old(self).lines@.push(msg),
    {
        self.lines.push(msg);
    }
}

} // verus!
