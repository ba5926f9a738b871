//! The events sent to the window: a command was asked for from the menu, and
//! the progress of a command that runs.

use vstd::prelude::*;
use crate::cmd::EvaluatedCmd;
use crate::menu::{
    command_item_id, ends_with_char, id_text, lemma_command_id_reads_back, parse_id, MenuIdView, CMD,
    SEPARATOR,
};
use crate::text::{contains, join3, lemma_replace_absent, replace, replace_all};

verus! {

/// Name of the event that asks the window to run a command.
pub const COMMAND_REQUESTED: &'static str = "COMMAND_REQUESTED";

/// A command picked in the menu, for the window to run: its identifier, its
/// label, the text to show (secrets masked), the text to run, and the
/// parameters it asks for.
#[derive(Debug, Clone, PartialEq, Eq)]
pub struct CommandRequested {
    pub command_id: String,
    pub command_label: String,
    pub command_value: String,
    pub command_to_execute: String,
    pub command_params: Option<Vec<String>>,
}

/// What happens to a running command.
#[derive(Debug, Clone, PartialEq, Eq)]
pub enum CommandExecutionEvent {
    CommandStarted,
    CommandProgress { progress_line: String },
    CommandEnded { duration: u128, status_code: i32 },
    CommandFailed { errors_lines: Vec<String>, duration: u128, status_code: i32 },
}

/// The request for the command of menu item `item_id`, evaluated as
/// `evaluated`: its label is the item's identifier without `Cmd_`.
pub fn command_requested(command_id: String, item_id: &str, evaluated: EvaluatedCmd) -> (r: CommandRequested)
    ensures
        r.command_id == command_id,
        r.command_label@ == replace_all(item_id@, CMD@, Seq::empty()),
        r.command_value == evaluated.modified_cmd,
        r.command_to_execute == evaluated.original_cmd,
        r.command_params == evaluated.parameters,
{
    let label = replace(item_id, CMD, "");
    proof {
        reveal_strlit("");
        assert(""@ =~= Seq::<char>::empty());
    }
    CommandRequested {
        command_id,
        command_label: label,
        command_value: evaluated.modified_cmd,
        command_to_execute: evaluated.original_cmd,
        command_params: evaluated.parameters,
    }
}

/// The shell script that runs `command_value` with the configured `PATH`.
pub fn launch_script(path: &str, command_value: &str) -> (r: String)
    ensures
        r@ == "export PATH='"@ + path@ + "' && "@ + command_value@,
{
    let head = join3("export PATH='", path, "' && ");
    crate::text::join2(head.as_str(), command_value)
}

/// The event that ends a command's run: `CommandEnded` with its status when
/// it succeeded; otherwise `CommandFailed` with the lines it wrote to its
/// error output, or `CommandEnded` when it wrote none; `-1` stands for a
/// missing status code.
pub fn completion_event(
    success: bool,
    status_code: Option<i32>,
    duration: u128,
    error_lines: Vec<String>,
) -> (r: CommandExecutionEvent)
    requires
        success ==> status_code is Some,
    ensures
        success ==> r == (CommandExecutionEvent::CommandEnded { duration, status_code: status_code->0 }),
        !success && error_lines@.len() > 0 ==> r == (CommandExecutionEvent::CommandFailed {
            errors_lines: error_lines,
            duration,
            status_code: match status_code {
                Some(c) => c,
                None => -1i32,
            },
        }),
        !success && error_lines@.len() == 0 ==> r == (CommandExecutionEvent::CommandEnded {
            duration,
            status_code: match status_code {
                Some(c) => c,
                None => -1i32,
            },
        }),
{
    if success {
        CommandExecutionEvent::CommandEnded { duration, status_code: status_code.unwrap() }
    } else {
        let code = match status_code {
            Some(c) => c,
            None => -1,
        };
        if error_lines.len() > 0 {
            CommandExecutionEvent::CommandFailed { errors_lines: error_lines, duration, status_code: code }
        } else {
            CommandExecutionEvent::CommandEnded { duration, status_code: code }
        }
    }
}

/// The label of the request made by clicking a command's item is the
/// command's name, for names that hold neither `||` nor `Cmd_` and do not
/// end with `|`, and command texts without `||`.
pub proof fn lemma_command_click_label(name: Seq<char>, cmd: Seq<char>)
    requires
        !contains(name, SEPARATOR@),
        !ends_with_char(name, '|'),
        !contains(name, CMD@),
        !contains(cmd, SEPARATOR@),
    ensures
        parse_id(id_text(command_item_id(name, cmd))) == Some(MenuIdView::Cmd { id: name, cmd }),
        replace_all(name, CMD@, Seq::empty()) == name,
{
    lemma_command_id_reads_back(name, cmd);
    reveal_strlit("Cmd_");
    lemma_replace_absent(name, CMD@, Seq::empty());
}

} // verus!
