//! The embedded shell: its size, and the commands that are captured from it.

use vstd::prelude::*;

use crate::models::event_kind;
use crate::models::snapshot_kind;
use crate::paths;
use crate::paths::PathPart;
use crate::paths::PartView;
use crate::session::NewEvent;
use crate::session::SnapshotRequest;
use crate::text;

verus! {

/// What bash reads at its start so that it writes down the commands it runs.
pub const BASH_SCRIPT: &'static str =
    "# Rewind bash integration\n[ -f \"$HOME/.bashrc\" ] && source \"$HOME/.bashrc\"\n__rewind_preexec() {\n  [ -n \"$COMP_LINE\" ] && return\n  case \"$BASH_COMMAND\" in\n    __rewind_*|\"$PROMPT_COMMAND\") return;;\n  esac\n  printf '%s\\n' \"$BASH_COMMAND\" >> \"$REWIND_CMD_LOG\" 2>/dev/null\n}\ntrap '__rewind_preexec' DEBUG\n";

/// What zsh reads at its start so that it writes down the commands it runs.
pub const ZSH_SCRIPT: &'static str =
    "# Rewind zsh integration\nif [ -f \"${REWIND_REAL_ZDOTDIR:-$HOME}/.zshrc\" ]; then\n  source \"${REWIND_REAL_ZDOTDIR:-$HOME}/.zshrc\"\nfi\n__rewind_preexec() { print -r -- \"$1\" >> \"$REWIND_CMD_LOG\" 2>/dev/null }\nautoload -Uz add-zsh-hook 2>/dev/null && add-zsh-hook preexec __rewind_preexec\n";

/// How a shell is made to write down the commands it runs.
#[derive(Debug, PartialEq, Eq)]
pub enum Hook {
    /// By a file that bash is told to read.
    Bash { script_path: String },
    /// By a file in a directory that zsh is told to start from.
    Zsh { script_path: String },
    /// Not at all.
    Absent,
}

/// How a shell is made to write down its commands, as sequences of characters.
pub enum HookView {
    Bash { script_path: Seq<char> },
    Zsh { script_path: Seq<char> },
    Absent,
}

impl View for Hook {
    type V = HookView;

    open spec fn view(&self) -> HookView {
        match self {
            Hook::Bash { script_path } => HookView::Bash { script_path: script_path@ },
            Hook::Zsh { script_path } => HookView::Zsh { script_path: script_path@ },
            Hook::Absent => HookView::Absent,
        }
    }
}

/// The name of the program at a path.
pub open spec fn program_name(path: Seq<char>) -> Seq<char> {
    let parts = paths::parts_of(path);
    if parts.len() > 0 {
        match parts.last() {
            PartView::Normal(name) => name,
            _ => Seq::empty(),
        }
    } else {
        Seq::empty()
    }
}

/// How the shell at `shell` is made to write down its commands, with files in
/// `dir`.
pub open spec fn hook_of(shell: Seq<char>, dir: Seq<char>) -> HookView {
    if program_name(shell) == "bash"@ {
        HookView::Bash { script_path: paths::joined(dir, "rewind-init.bash"@) }
    } else if program_name(shell) == "zsh"@ {
        HookView::Zsh { script_path: paths::joined(dir, ".zshrc"@) }
    } else {
        HookView::Absent
    }
}

/// How the shell at `shell` is made to write down its commands, with files in
/// `dir`.
pub fn setup_integration(shell: &str, dir: &str) -> (r: Hook)
    ensures
        r@ == hook_of(shell@, dir@),
{
    let parts = paths::parts(shell);
    let name = if parts.len() > 0 {
        match &parts[parts.len() - 1] {
            PathPart::Normal(name) => name.clone(),
            _ => String::new(),
        }
    } else {
        String::new()
    };
    proof {
        assert(name@ =~= program_name(shell@));
    }
    if text::same(name.as_str(), "bash") {
        Hook::Bash { script_path: paths::join(dir, "rewind-init.bash") }
    } else if text::same(name.as_str(), "zsh") {
        Hook::Zsh { script_path: paths::join(dir, ".zshrc") }
    } else {
        Hook::Absent
    }
}

/// Where the commands of the process `pid` are written down.
pub fn command_log(dir: &str, pid: u32) -> (r: String)
    ensures
        r@ == paths::joined(dir@, "commands-"@ + text::dec(pid as nat) + ".log"@),
{
    let mut name = "commands-".to_string();
    text::push_dec(&mut name, pid as u128);
    name.append(".log");
    paths::join(dir, name.as_str())
}

/// The size of the shell's screen: a row and a column at least.
pub fn screen_size(rows: u16, columns: u16) -> (r: (u16, u16))
    ensures
        r.0 == if rows == 0 {
            1
        } else {
            rows
        },
        r.1 == if columns == 0 {
            1
        } else {
            columns
        },
{
    let rows: u16 = if rows == 0 {
        1
    } else {
        rows
    };
    let columns: u16 = if columns == 0 {
        1
    } else {
        columns
    };
    (rows, columns)
}

/// The command on a line that was captured, if it is not blank.
pub fn captured_command(line: &str) -> (r: Option<String>)
    ensures
        text::opt_text(r) == if text::trimmed(line@).len() == 0 {
            None
        } else {
            Some(text::trimmed(line@))
        },
{
    let command = text::trim(line);
    if command.is_empty() {
        None
    } else {
        Some(command.to_string())
    }
}

/// The snapshot to take after a captured command.
pub fn snapshot_after(command: &str) -> (r: SnapshotRequest)
    ensures
        r.kind@ == snapshot_kind::POST_COMMAND@,
        r.label@ == "after `"@ + command@ + "`"@,
{
    let mut label = "after `".to_string();
    label.append(command);
    label.append("`");
    SnapshotRequest { kind: snapshot_kind::POST_COMMAND.to_string(), label }
}

/// The event of a captured command.
pub fn captured_event(command: &str) -> (r: NewEvent)
    ensures
        r.kind@ == event_kind::COMMAND@,
        r.summary@ == "$ "@ + command@,
{
    let mut summary = "$ ".to_string();
    summary.append(command);
    NewEvent { kind: event_kind::COMMAND.to_string(), summary }
}

} // verus!
