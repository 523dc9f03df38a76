//! Input modes, pane focus and edit targets.
use vstd::prelude::*;

verus! {

#[derive(Debug, Clone, Copy, PartialEq, Eq, Structural)]
pub enum Mode {
    Normal,
    /// Editing a single text field (title, description, etc.)
    Insert,
    /// `:` command bar.
    Command,
    /// `/` search bar.
    Search,
    /// `?` help overlay.
    Help,
}

impl Mode {
    /// The mode's name in capitals.
    pub open spec fn name(self) -> Seq<char> {
        match self {
            Mode::Normal => "NORMAL"@,
            Mode::Insert => "INSERT"@,
            Mode::Command => "COMMAND"@,
            Mode::Search => "SEARCH"@,
            Mode::Help => "HELP"@,
        }
    }

    pub fn label(&self) -> (res: &'static str)
        ensures
            res@ == self.name(),
    {
        match self {
            Mode::Normal => "NORMAL",
            Mode::Insert => "INSERT",
            Mode::Command => "COMMAND",
            Mode::Search => "SEARCH",
            Mode::Help => "HELP",
        }
    }
}

/// Which top-level pane currently has focus. Tab cycles between them.
#[derive(Debug, Clone, Copy, PartialEq, Eq, Structural)]
pub enum Focus {
    Sidebar,
    Tasks,
    Details,
}

impl Focus {
    /// The pane after this one in the cycle sidebar → tasks → details → sidebar.
    pub open spec fn following(self) -> Focus {
        match self {
            Focus::Sidebar => Focus::Tasks,
            Focus::Tasks => Focus::Details,
            Focus::Details => Focus::Sidebar,
        }
    }

    pub fn next(self) -> (res: Self)
        ensures
            res == self.following(),
    {
        match self {
            Focus::Sidebar => Focus::Tasks,
            Focus::Tasks => Focus::Details,
            Focus::Details => Focus::Sidebar,
        }
    }
}

/// What the current Insert-mode text buffer is editing. Lets us know where to
/// commit the buffer when the user presses Enter.
#[derive(Debug, Clone, Copy, PartialEq, Eq, Structural)]
pub enum EditTarget {
    /// Add a new top-level task with this title.
    NewTask,
    /// Add a new subtask under the given parent id.
    NewSubtask { parent_id: i64 },
    /// Edit the title of the task with this id.
    EditTitle { task_id: i64 },
    /// Edit description.
    EditDescription { task_id: i64 },
}

/// Cycling focus three times comes back to the same pane.
pub proof fn law_focus_cycle(f: Focus)
    ensures
        f.following().following().following() == f,
{
}

} // verus!
