//! The answer to the cleanup prompt, and when the prompt is needed.

use vstd::prelude::*;

use crate::cli::Cli;
use crate::types::text_string;
use crate::text::{
    chars_equal_text, chars_of, lower, lower_chars, push_text, string_from_chars, trim, trim_chars,
};

verus! {

/// The answer is "y" or "yes", in any ASCII case, with whitespace around it.
pub open spec fn is_yes(input: Seq<char>) -> bool {
    let a = lower(trim(input));
    a == "y"@ || a == "yes"@
}

/// Whether the text typed at the prompt agrees to the cleanup.
pub fn parse_confirmation_input(input: &str) -> (r: bool)
    ensures
        r == is_yes(input@),
{
    let chars = chars_of(input);
    let trimmed = trim_chars(&chars);
    let answer = lower_chars(&trimmed);
    chars_equal_text(&answer, "y") || chars_equal_text(&answer, "yes")
}


/// What to do before cleaning.
pub enum ConfirmStep {
    /// Go ahead.
    Proceed,
    /// Stop with this error.
    Refuse(String),
    /// Ask at the terminal.
    Prompt,
}

/// The refusal when no one can be asked.
pub open spec fn not_interactive_message() -> Seq<char> {
    "cleanup confirmation requires an interactive terminal; rerun with --yes to skip the prompt"@
}

/// Whether to ask before cleaning: never in a dry run, with `--yes`, or
/// with nothing to clean; otherwise ask when standard input and standard
/// error are terminals, and refuse when they are not.
pub fn confirm_cleanup(cli: &Cli, project_count: usize, interactive: bool) -> (r: ConfirmStep)
    ensures
        (cli.dry_run || cli.yes || project_count == 0) ==> r is Proceed,
        !(cli.dry_run || cli.yes || project_count == 0) && !interactive ==> (r matches ConfirmStep::Refuse(m) && m@ == not_interactive_message()),
        !(cli.dry_run || cli.yes || project_count == 0) && interactive ==> r is Prompt,
{
    if cli.dry_run || cli.yes || project_count == 0 {
        return ConfirmStep::Proceed;
    }
    if !interactive {
        return ConfirmStep::Refuse(
            text_string("cleanup confirmation requires an interactive terminal; rerun with --yes to skip the prompt"),
        );
    }
    ConfirmStep::Prompt
}

/// Where the run stops at the confirmation step, if it does: the exit
/// status and the line to print. A refusal stops with status 2; at the
/// prompt, "yes" goes on, "no" stops with status 0 and "Cleanup cancelled.",
/// and a prompt that failed stops with status 2.
pub open spec fn confirmation_stop_of(step: ConfirmModel, answer: Option<Result<bool, Seq<char>>>) -> Option<(u8, Seq<char>)> {
    match step {
        ConfirmModel::Proceed => None,
        ConfirmModel::Refuse(m) => Some((2u8, "error: "@ + m)),
        ConfirmModel::Prompt => match answer {
            Some(Ok(true)) => None,
            Some(Ok(false)) => Some((0u8, "Cleanup cancelled."@)),
            Some(Err(m)) => Some((2u8, "error: "@ + m)),
            None => None,
        },
    }
}

/// A confirmation step as values.
pub enum ConfirmModel {
    Proceed,
    Refuse(Seq<char>),
    Prompt,
}

impl View for ConfirmStep {
    type V = ConfirmModel;

    open spec fn view(&self) -> ConfirmModel {
        match self {
            ConfirmStep::Proceed => ConfirmModel::Proceed,
            ConfirmStep::Refuse(m) => ConfirmModel::Refuse(m@),
            ConfirmStep::Prompt => ConfirmModel::Prompt,
        }
    }
}

/// Decides whether the run stops at the confirmation step, from the step
/// and, when the user was asked, the answer (or the error asking).
pub fn confirmation_stop(step: &ConfirmStep, answer: &Option<Result<bool, String>>) -> (r: Option<(u8, String)>)
    requires
        step is Prompt ==> answer is Some,
    ensures
        match r {
            Some((code, line)) => confirmation_stop_of(step@, answer_model(answer)) == Some((code, line@)),
            None => confirmation_stop_of(step@, answer_model(answer)) is None,
        },
{
    match step {
        ConfirmStep::Proceed => None,
        ConfirmStep::Refuse(m) => Some((2, error_line(m))),
        ConfirmStep::Prompt => match answer {
            Some(Ok(true)) => None,
            Some(Ok(false)) => Some((0, text_string("Cleanup cancelled."))),
            Some(Err(m)) => Some((2, error_line(m))),
            None => None,
        },
    }
}

/// An answer as values.
pub open spec fn answer_model(a: &Option<Result<bool, String>>) -> Option<Result<bool, Seq<char>>> {
    match a {
        Some(Ok(b)) => Some(Ok(*b)),
        Some(Err(m)) => Some(Err(m@)),
        None => None,
    }
}

/// "error: " and the message.
pub fn error_line(message: &String) -> (r: String)
    ensures
        r@ == "error: "@ + message@,
{
    let mut out: Vec<char> = Vec::new();
    push_text(&mut out, "error: ");
    push_text(&mut out, message.as_str());
    string_from_chars(&out)
}

} // verus!
