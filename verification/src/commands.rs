//! The `:` command bar language.
use vstd::prelude::*;

use crate::error::{AppError, AppResult};
use crate::text::{
    chars_of, copy_str, lemma_word_prefix, push_str, spec_trim, spec_words, split_words, str_eq,
    string_of_range, trim, trim_bounds, word_end, word_prefix,
};

verus! {

/// Parsed `:` command from the command bar.
#[derive(Debug, Clone, PartialEq, Eq)]
pub enum Command {
    Quit,
    Write,
    Help,
    Export { scope: ExportScope, file: Option<String> },
    /// Clear active filters / search.
    ClearFilters,
    /// Add a (predefined) tag to the selected task.
    AddTag(String),
    /// Remove a tag from the selected task.
    RemoveTag(String),
    /// Set due date on the selected task. "YYYY-MM-DD", "today", "tomorrow", or "none".
    Due(String),
    /// Set priority on the selected task.
    Priority(String),
    /// Set status on the selected task.
    Status(String),
    /// Set description on the selected task. Empty argument clears it.
    Description(String),
    /// Set the project of the selected task by project name. "none" clears it.
    SetTaskProject(String),
    /// Create a new project.
    NewProject(String),
    /// Start a pomodoro on the selected task.
    Pomo,
    /// Stop the current pomodoro.
    PomoStop,
}

#[derive(Debug, Clone, PartialEq, Eq)]
pub enum ExportScope {
    Today,
    All,
    Visible,
    Project(String),
}

/// An export scope, as mathematical values.
pub enum ScopeModel {
    Today,
    All,
    Visible,
    Project(Seq<char>),
}

/// A command, as mathematical values.
pub enum CommandModel {
    Quit,
    Write,
    Help,
    Export { scope: ScopeModel, file: Option<Seq<char>> },
    ClearFilters,
    AddTag(Seq<char>),
    RemoveTag(Seq<char>),
    Due(Seq<char>),
    Priority(Seq<char>),
    Status(Seq<char>),
    Description(Seq<char>),
    SetTaskProject(Seq<char>),
    NewProject(Seq<char>),
    Pomo,
    PomoStop,
}

impl View for ExportScope {
    type V = ScopeModel;

    open spec fn view(&self) -> ScopeModel {
        match self {
            ExportScope::Today => ScopeModel::Today,
            ExportScope::All => ScopeModel::All,
            ExportScope::Visible => ScopeModel::Visible,
            ExportScope::Project(s) => ScopeModel::Project(s@),
        }
    }
}

impl View for Command {
    type V = CommandModel;

    open spec fn view(&self) -> CommandModel {
        match self {
            Command::Quit => CommandModel::Quit,
            Command::Write => CommandModel::Write,
            Command::Help => CommandModel::Help,
            Command::Export { scope, file } => CommandModel::Export {
                scope: scope@,
                file: match file {
                    Some(f) => Some(f@),
                    None => None,
                },
            },
            Command::ClearFilters => CommandModel::ClearFilters,
            Command::AddTag(s) => CommandModel::AddTag(s@),
            Command::RemoveTag(s) => CommandModel::RemoveTag(s@),
            Command::Due(s) => CommandModel::Due(s@),
            Command::Priority(s) => CommandModel::Priority(s@),
            Command::Status(s) => CommandModel::Status(s@),
            Command::Description(s) => CommandModel::Description(s@),
            Command::SetTaskProject(s) => CommandModel::SetTaskProject(s@),
            Command::NewProject(s) => CommandModel::NewProject(s@),
            Command::Pomo => CommandModel::Pomo,
            Command::PomoStop => CommandModel::PomoStop,
        }
    }
}

// ---------------------------------------------------------------------
// The grammar
// ---------------------------------------------------------------------

/// The first word of a trimmed command line.
pub open spec fn head_of(t: Seq<char>) -> Seq<char> {
    word_prefix(t)
}

/// What follows the first word and the whitespace character after it,
/// trimmed; empty when the line is a single word.
pub open spec fn rest_of(t: Seq<char>) -> Seq<char> {
    let h = word_prefix(t).len();
    if h < t.len() {
        spec_trim(t.skip(h as int + 1))
    } else {
        Seq::empty()
    }
}

/// `rest` as the argument of a command that needs one, or the usage message.
pub open spec fn needed(rest: Seq<char>, usage: Seq<char>) -> Result<Seq<char>, Seq<char>> {
    if rest.len() == 0 {
        Err(usage)
    } else {
        Ok(rest)
    }
}

/// `:export [scope [name] [file]]`.
pub open spec fn export_spec(rest: Seq<char>) -> Result<CommandModel, Seq<char>> {
    if rest.len() == 0 {
        Ok(CommandModel::Export { scope: ScopeModel::Visible, file: None })
    } else {
        let w = spec_words(rest);
        let tok = w[0];
        let scope_next: Result<(ScopeModel, int), Seq<char>> = if tok == "today"@ {
            Ok((ScopeModel::Today, 1))
        } else if tok == "all"@ {
            Ok((ScopeModel::All, 1))
        } else if tok == "visible"@ {
            Ok((ScopeModel::Visible, 1))
        } else if tok == "project"@ {
            if w.len() < 2 {
                Err("usage: :export project <name> [file]"@)
            } else {
                Ok((ScopeModel::Project(w[1]), 2))
            }
        } else {
            Err("unknown export scope: "@ + tok)
        };
        match scope_next {
            Ok((scope, next)) => Ok(
                CommandModel::Export {
                    scope,
                    file: if next < w.len() {
                        Some(w[next])
                    } else {
                        None
                    },
                },
            ),
            Err(e) => Err(e),
        }
    }
}

/// The word at position `k` of `w`, if there is one.
pub open spec fn word_at(w: Seq<Seq<char>>, k: int) -> Option<Seq<char>> {
    if k < w.len() {
        Some(w[k])
    } else {
        None
    }
}

/// In `:export`, the word after a scope of `today`, `all` or `visible`,
/// and the word after the name in `project <name>`, is the file to write;
/// with no word there, there is no file; words past it are ignored.
pub proof fn law_export_file_follows_scope(rest: Seq<char>)
    requires
        rest.len() > 0,
        spec_words(rest).len() >= 1,
    ensures
        spec_words(rest)[0] == "today"@ ==> export_spec(rest) == Ok::<CommandModel, Seq<char>>(
            CommandModel::Export { scope: ScopeModel::Today, file: word_at(spec_words(rest), 1) },
        ),
        spec_words(rest)[0] == "all"@ ==> export_spec(rest) == Ok::<CommandModel, Seq<char>>(
            CommandModel::Export { scope: ScopeModel::All, file: word_at(spec_words(rest), 1) },
        ),
        spec_words(rest)[0] == "visible"@ ==> export_spec(rest) == Ok::<CommandModel, Seq<char>>(
            CommandModel::Export { scope: ScopeModel::Visible, file: word_at(spec_words(rest), 1) },
        ),
        spec_words(rest)[0] == "project"@ && spec_words(rest).len() >= 2 ==> export_spec(rest) == Ok::<
            CommandModel,
            Seq<char>,
        >(
            CommandModel::Export {
                scope: ScopeModel::Project(spec_words(rest)[1]),
                file: word_at(spec_words(rest), 2),
            },
        ),
{
    reveal_strlit("today");
    reveal_strlit("all");
    reveal_strlit("visible");
    reveal_strlit("project");
    let w = spec_words(rest);
    if w[0] == "all"@ {
        assert(w[0] != "today"@) by {
            assert(w[0][0] != "today"@[0]);
        }
    }
    if w[0] == "visible"@ {
        assert(w[0] != "today"@) by {
            assert(w[0].len() != "today"@.len());
        }
        assert(w[0] != "all"@) by {
            assert(w[0].len() != "all"@.len());
        }
    }
    if w[0] == "project"@ {
        assert(w[0] != "today"@) by {
            assert(w[0].len() != "today"@.len());
        }
        assert(w[0] != "all"@) by {
            assert(w[0].len() != "all"@.len());
        }
        assert(w[0] != "visible"@) by {
            assert(w[0][0] != "visible"@[0]);
        }
    }
}

/// The command a line stands for, or the message of the `InvalidCommand`
/// error it gets.
pub open spec fn parse_spec(input: Seq<char>) -> Result<CommandModel, Seq<char>> {
    let t = spec_trim(input);
    if t.len() == 0 {
        Err("empty"@)
    } else {
        let head = head_of(t);
        let rest = rest_of(t);
        if head == "q"@ || head == "quit"@ {
            Ok(CommandModel::Quit)
        } else if head == "w"@ || head == "write"@ {
            Ok(CommandModel::Write)
        } else if head == "wq"@ {
            Ok(CommandModel::Quit)
        } else if head == "help"@ {
            Ok(CommandModel::Help)
        } else if head == "export"@ {
            export_spec(rest)
        } else if head == "clear"@ {
            Ok(CommandModel::ClearFilters)
        } else if head == "addtag"@ {
            match needed(rest, "usage: :addtag <name>"@) {
                Ok(r) => Ok(CommandModel::AddTag(r)),
                Err(e) => Err(e),
            }
        } else if head == "rmtag"@ {
            match needed(rest, "usage: :rmtag <name>"@) {
                Ok(r) => Ok(CommandModel::RemoveTag(r)),
                Err(e) => Err(e),
            }
        } else if head == "due"@ {
            match needed(rest, "usage: :due YYYY-MM-DD|today|tomorrow|none"@) {
                Ok(r) => Ok(CommandModel::Due(r)),
                Err(e) => Err(e),
            }
        } else if head == "pri"@ || head == "priority"@ {
            match needed(rest, "usage: :pri high|medium|low"@) {
                Ok(r) => Ok(CommandModel::Priority(r)),
                Err(e) => Err(e),
            }
        } else if head == "status"@ {
            match needed(rest, "usage: :status todo|doing|waiting|done"@) {
                Ok(r) => Ok(CommandModel::Status(r)),
                Err(e) => Err(e),
            }
        } else if head == "desc"@ || head == "description"@ {
            Ok(CommandModel::Description(rest))
        } else if head == "project"@ || head == "proj"@ {
            match needed(rest, "usage: :project <name|none>"@) {
                Ok(r) => Ok(CommandModel::SetTaskProject(r)),
                Err(e) => Err(e),
            }
        } else if head == "newproject"@ || head == "newproj"@ {
            match needed(rest, "usage: :newproject <name>"@) {
                Ok(r) => Ok(CommandModel::NewProject(r)),
                Err(e) => Err(e),
            }
        } else if head == "pomo"@ {
            Ok(CommandModel::Pomo)
        } else if head == "pomostop"@ {
            Ok(CommandModel::PomoStop)
        } else {
            Err(head)
        }
    }
}

/// Whether `res` is what `parse_spec` says for `input`.
pub open spec fn parsed_as(res: AppResult<Command>, spec: Result<CommandModel, Seq<char>>) -> bool {
    match res {
        Ok(c) => spec == Ok::<CommandModel, Seq<char>>(c@),
        Err(AppError::InvalidCommand(m)) => spec == Err::<CommandModel, Seq<char>>(m@),
        Err(_) => false,
    }
}

// ---------------------------------------------------------------------
// The parser
// ---------------------------------------------------------------------

fn invalid(msg: &str) -> (res: AppResult<Command>)
    ensures
        parsed_as(res, Err(msg@)),
{
    Err(AppError::InvalidCommand(copy_str(msg)))
}

fn require_rest(rest: &str, msg: &str) -> (res: AppResult<String>)
    ensures
        match res {
            Ok(r) => needed(rest@, msg@) == Ok::<Seq<char>, Seq<char>>(r@),
            Err(AppError::InvalidCommand(m)) => needed(rest@, msg@) == Err::<Seq<char>, Seq<char>>(
                m@,
            ),
            Err(_) => false,
        },
{
    if rest.is_empty() {
        Err(AppError::InvalidCommand(copy_str(msg)))
    } else {
        Ok(copy_str(rest))
    }
}

/// Reads the arguments of `:export`.
fn parse_export(rest: &str) -> (res: AppResult<Command>)
    requires
        rest@ == spec_trim(rest@),
    ensures
        parsed_as(res, export_spec(rest@)),
{
    if rest.is_empty() {
        return Ok(Command::Export { scope: ExportScope::Visible, file: None });
    }
    let v = chars_of(rest);
    let w = split_words(&v);
    let ghost ws = spec_words(rest@);
    proof {
        crate::text::lemma_trimmed_ends(rest@);
        assert(ws.len() >= 1);
    }
    let tok = w[0].as_str();
    let (scope, next): (ExportScope, usize) = if str_eq(tok, "today") {
        (ExportScope::Today, 1)
    } else if str_eq(tok, "all") {
        (ExportScope::All, 1)
    } else if str_eq(tok, "visible") {
        (ExportScope::Visible, 1)
    } else if str_eq(tok, "project") {
        if w.len() < 2 {
            return Err(AppError::InvalidCommand(copy_str("usage: :export project <name> [file]")));
        }
        (ExportScope::Project(copy_str(w[1].as_str())), 2)
    } else {
        let mut msg = copy_str("unknown export scope: ");
        push_str(&mut msg, tok);
        return Err(AppError::InvalidCommand(msg));
    };
    let file = if next < w.len() {
        Some(copy_str(w[next].as_str()))
    } else {
        None
    };
    Ok(Command::Export { scope, file })
}

/// Parses a command line.
pub fn parse(input: &str) -> (res: AppResult<Command>)
    ensures
        parsed_as(res, parse_spec(input@)),
{
    let v0 = chars_of(input);
    let (a, b) = trim_bounds(&v0);
    let tstr = string_of_range(&v0, a, b);
    let t = chars_of(tstr.as_str());
    if t.len() == 0 {
        return invalid("empty");
    }
    let h = word_end(&t);
    let head_s = string_of_range(&t, 0, h);
    let rest_s = if h < t.len() {
        let after = string_of_range(&t, h + 1, t.len());
        proof {
            assert(t@.subrange(h + 1, t@.len() as int) =~= t@.skip(h + 1));
        }
        trim(after.as_str())
    } else {
        String::new()
    };
    proof {
        assert(t@ == spec_trim(input@));
        assert(head_s@ =~= head_of(t@));
        assert(rest_s@ == rest_of(t@));
    }
    let head = head_s.as_str();
    let rest = rest_s.as_str();
    if str_eq(head, "q") || str_eq(head, "quit") {
        Ok(Command::Quit)
    } else if str_eq(head, "w") || str_eq(head, "write") {
        Ok(Command::Write)
    } else if str_eq(head, "wq") {
        Ok(Command::Quit)
    } else if str_eq(head, "help") {
        Ok(Command::Help)
    } else if str_eq(head, "export") {
        proof {
            if h < t.len() {
                crate::text::lemma_trim_idempotent(t@.skip(h + 1));
            } else {
                assert(rest@ =~= Seq::<char>::empty());
                assert(spec_trim(rest@) == rest@);
            }
        }
        parse_export(rest)
    } else if str_eq(head, "clear") {
        Ok(Command::ClearFilters)
    } else if str_eq(head, "addtag") {
        match require_rest(rest, "usage: :addtag <name>") {
            Ok(r) => Ok(Command::AddTag(r)),
            Err(e) => Err(e),
        }
    } else if str_eq(head, "rmtag") {
        match require_rest(rest, "usage: :rmtag <name>") {
            Ok(r) => Ok(Command::RemoveTag(r)),
            Err(e) => Err(e),
        }
    } else if str_eq(head, "due") {
        match require_rest(rest, "usage: :due YYYY-MM-DD|today|tomorrow|none") {
            Ok(r) => Ok(Command::Due(r)),
            Err(e) => Err(e),
        }
    } else if str_eq(head, "pri") || str_eq(head, "priority") {
        match require_rest(rest, "usage: :pri high|medium|low") {
            Ok(r) => Ok(Command::Priority(r)),
            Err(e) => Err(e),
        }
    } else if str_eq(head, "status") {
        match require_rest(rest, "usage: :status todo|doing|waiting|done") {
            Ok(r) => Ok(Command::Status(r)),
            Err(e) => Err(e),
        }
    } else if str_eq(head, "desc") || str_eq(head, "description") {
        Ok(Command::Description(copy_str(rest)))
    } else if str_eq(head, "project") || str_eq(head, "proj") {
        match require_rest(rest, "usage: :project <name|none>") {
            Ok(r) => Ok(Command::SetTaskProject(r)),
            Err(e) => Err(e),
        }
    } else if str_eq(head, "newproject") || str_eq(head, "newproj") {
        match require_rest(rest, "usage: :newproject <name>") {
            Ok(r) => Ok(Command::NewProject(r)),
            Err(e) => Err(e),
        }
    } else if str_eq(head, "pomo") {
        Ok(Command::Pomo)
    } else if str_eq(head, "pomostop") {
        Ok(Command::PomoStop)
    } else {
        Err(AppError::InvalidCommand(copy_str(head)))
    }
}

} // verus!
