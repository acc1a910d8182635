//! What a request asks of the model, and what its reply gives back.

use crate::output::{command_line, join_lines, note_lines, parse_command_output, sanitize_output, sanitized};
use crate::prompt::{answer_request, chat_turn, command_request, explain_request, format_answer_prompt, format_explain_prompt, format_prompt};
use crate::text::{join_strings, join_strs, join_with, trim, trim_str};
use vstd::prelude::*;

verus! {

broadcast use vstd::string::group_string_axioms;

/// What the user asks for.
#[derive(Clone, Copy, Debug, PartialEq, Eq, Structural)]
pub enum Mode {
    /// A shell command that does what the words describe.
    Command,
    /// An explanation of a shell command.
    Explain,
    /// An answer to a question.
    Answer,
}

/// The words `parts` joined by single spaces.
pub open spec fn words(parts: Seq<String>) -> Seq<char> {
    join_with(parts.map_values(|p: String| p@), seq![' '])
}

/// The request that the arguments make: an explanation when `explain` is
/// given, else an answer when `answer` is given, else a command for the
/// words of `query`; the words of the request joined by spaces.
pub fn request_from_args(
    explain: Option<Vec<String>>,
    answer: Option<Vec<String>>,
    query: Vec<String>,
) -> (r: (Mode, String))
    ensures
        match explain {
            Some(p) => r.0 == Mode::Explain && r.1@ == words(p@),
            None => match answer {
                Some(p) => r.0 == Mode::Answer && r.1@ == words(p@),
                None => r.0 == Mode::Command && r.1@ == words(query@),
            },
        },
{
    proof {
        reveal_strlit(" ");
    }
    assert(" "@ =~= seq![' ']);
    match explain {
        Some(p) => (Mode::Explain, join_strings(&p, " ")),
        None => match answer {
            Some(p) => (Mode::Answer, join_strings(&p, " ")),
            None => (Mode::Command, join_strings(&query, " ")),
        },
    }
}

/// The prompt for `input` in `mode`, for `shell` on `os`.
pub fn prompt_for(mode: Mode, input: &str, shell: &str, os: &str) -> (r: String)
    ensures
        r@ == chat_turn(
            match mode {
                Mode::Command => command_request(input@, shell@, os@),
                Mode::Explain => explain_request(input@, shell@, os@),
                Mode::Answer => answer_request(input@),
            },
        ),
{
    match mode {
        Mode::Command => format_prompt(input, shell, os),
        Mode::Explain => format_explain_prompt(input, shell, os),
        Mode::Answer => format_answer_prompt(input),
    }
}

/// What to show for a reply.
#[derive(Clone, Debug)]
pub enum Reply {
    /// The reply held nothing to show.
    Empty,
    /// An explanation or an answer.
    Text(String),
    /// A command, with its hints joined by line feeds when they are shown.
    Command { command: String, hints: Option<String> },
}

/// What the model's `raw` reply in `mode` gives: for an explanation or an
/// answer, the sanitized reply trimmed; for a command, the command of the
/// sanitized reply, with its hints when `show_hints` holds and there are
/// any; nothing when that text or that command is empty.
pub fn read_reply(mode: Mode, raw: &str, show_hints: bool) -> (r: Reply)
    ensures
        ({
            let s = sanitized(raw@);
            match mode {
                Mode::Command => if command_line(s).len() == 0 {
                    r is Empty
                } else {
                    &&& r matches Reply::Command { command, hints }
                    &&& command@ == command_line(s)
                    &&& (show_hints && note_lines(s).len() > 0) == (hints is Some)
                    &&& hints matches Some(h) ==> h@ == join_lines(note_lines(s))
                },
                _ => if trim(s).len() == 0 {
                    r is Empty
                } else {
                    r matches Reply::Text(t) && t@ == trim(s)
                },
            }
        }),
{
    let clean = sanitize_output(raw);
    match mode {
        Mode::Command => {
            let (command, notes) = parse_command_output(clean.as_str());
            if command.as_str().unicode_len() == 0 {
                Reply::Empty
            } else if show_hints && notes.len() > 0 {
                proof {
                    reveal_strlit("\n");
                }
                assert("\n"@ =~= seq!['\n']);
                assert(notes@.map_values(|p: &str| p@) =~= note_lines(clean@));
                let hints = join_strs(&notes, "\n");
                Reply::Command { command, hints: Some(hints) }
            } else {
                Reply::Command { command, hints: None }
            }
        },
        _ => {
            let text = trim_str(clean.as_str());
            if text.unicode_len() == 0 {
                Reply::Empty
            } else {
                Reply::Text(text.to_owned())
            }
        },
    }
}

} // verus!
