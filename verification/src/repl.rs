//! The interactive shell's decision core: given the current persona and one
//! input line, decide what to do — print, exit, ask the completion client,
//! run a slash command, or dispatch an embedded CLI command.
//!
//! The surrounding binary owns the read–eval–print loop: it reads a line,
//! calls `step_line`, performs the returned action (printing, asking the
//! provider, parsing CLI arguments), and loops. Every decision is made and
//! proved here, against `spec_step_line`.

use vstd::prelude::*;

use crate::text::{
    spec_trim, split_whitespace_tokens, split_ws, str_eq, trim_str, views_of,
};

verus! {

/// What the shell should do with one input line.
#[derive(Debug)]
pub enum ReplAction {
    /// Nothing: the line was blank.
    Idle,
    /// Print this text and continue.
    Output(String),
    /// Leave the loop.
    Exit,
    /// Send this prompt to the completion client and print the response.
    AskPrompt(String),
    /// Run the full slash-command pipeline (parse, render, ask) on the line.
    RunSlash(String),
    /// Dispatch these tokens as a CLI command.
    CliCommand(Vec<String>),
}

/// Mathematical image of a `ReplAction`.
pub ghost enum ReplActionView {
    Idle,
    Output(Seq<char>),
    Exit,
    AskPrompt(Seq<char>),
    RunSlash(Seq<char>),
    CliCommand(Seq<Seq<char>>),
}

impl View for ReplAction {
    type V = ReplActionView;

    open spec fn view(&self) -> ReplActionView {
        match self {
            ReplAction::Idle => ReplActionView::Idle,
            ReplAction::Output(s) => ReplActionView::Output(s@),
            ReplAction::Exit => ReplActionView::Exit,
            ReplAction::AskPrompt(s) => ReplActionView::AskPrompt(s@),
            ReplAction::RunSlash(s) => ReplActionView::RunSlash(s@),
            ReplAction::CliCommand(ts) => ReplActionView::CliCommand(views_of(ts@)),
        }
    }
}

/// The help text the shell prints.
pub open spec fn spec_help_text() -> Seq<char> {
    "Commands:\n\nSlash commands:\n  /help            show this help message\n  /exit, /quit     leave the shell\n  /persona [name]  set or show the current persona\n  /clear           clear the screen\n  /status          show shell status\n  /test, /build, /explain  run a slash command over a file\n\nCLI commands:\n  agent ls | spawn <id> [--persona <name>] | stop <id> | status <id>\n  ask <question> [--persona <name>]\n  version\n\nAnything else is sent as a question under the current persona.\n"@
}

/// Does the first token of `line` name an embedded CLI command?
pub open spec fn spec_parse_command_line(line: Seq<char>) -> Option<Seq<Seq<char>>> {
    let tokens = split_ws(line);
    if tokens.len() == 0 {
        None
    } else if tokens[0] == "agent"@ || tokens[0] == "ask"@ || tokens[0] == "version"@ || tokens[0]
        == "repl"@ {
        Some(tokens)
    } else {
        None
    }
}

/// Recognizes a line that starts an embedded CLI command (`agent`, `ask`,
/// `version` or `repl`) and hands its tokens back.
pub fn parse_command_line(line: &str) -> (r: Option<Vec<String>>)
    ensures
        r matches Some(ts) ==> spec_parse_command_line(line@) == Some(views_of(ts@)),
        r is None <==> spec_parse_command_line(line@) is None,
{
    let tokens = split_whitespace_tokens(line);
    if tokens.len() == 0 {
        return None;
    }
    let head = tokens[0].as_str();
    if str_eq(head, "agent") || str_eq(head, "ask") || str_eq(head, "version") || str_eq(
        head,
        "repl",
    ) {
        Some(tokens)
    } else {
        None
    }
}

/// The prompt sent for a direct question: plain under the default persona,
/// prefixed with the acting persona otherwise.
pub open spec fn spec_prompt_for(persona: Seq<char>, question: Seq<char>) -> Seq<char> {
    if persona != "default"@ {
        "Acting as "@ + persona + ": "@ + question
    } else {
        question
    }
}

/// Builds the prompt for a direct question under `persona`.
pub fn prompt_for(persona: &str, question: &str) -> (r: String)
    ensures
        r@ == spec_prompt_for(persona@, question@),
{
    if !str_eq(persona, "default") {
        let r = String::from_str("Acting as ").concat(persona).concat(": ").concat(question);
        proof {
            assert(r@ =~= spec_prompt_for(persona@, question@));
        }
        r
    } else {
        String::from_str(question)
    }
}

/// What one line makes the shell do, and the persona afterwards.
pub open spec fn spec_step_line(persona: Seq<char>, line: Seq<char>) -> (ReplActionView, Seq<
    char,
>) {
    let t = spec_trim(line);
    if t.len() == 0 {
        (ReplActionView::Idle, persona)
    } else if t[0] == '/' {
        let parts = split_ws(t.skip(1));
        if parts.len() == 0 {
            (ReplActionView::Output("Empty command"@), persona)
        } else if parts[0] == "help"@ {
            (ReplActionView::Output(spec_help_text()), persona)
        } else if parts[0] == "exit"@ || parts[0] == "quit"@ {
            (ReplActionView::Exit, persona)
        } else if parts[0] == "persona"@ {
            if parts.len() > 1 {
                (ReplActionView::Output("Switched to persona: "@ + parts[1]), parts[1])
            } else {
                (ReplActionView::Output("Current persona: "@ + persona), persona)
            }
        } else if parts[0] == "clear"@ {
            (ReplActionView::Output("\x1B[2J\x1B[1;1H"@), persona)
        } else if parts[0] == "status"@ {
            (ReplActionView::Output("REPL Status: Ready"@), persona)
        } else if parts[0] == "test"@ || parts[0] == "build"@ || parts[0] == "explain"@ {
            (ReplActionView::RunSlash(t), persona)
        } else {
            (ReplActionView::Output("Unknown command: /"@ + parts[0]), persona)
        }
    } else {
        match spec_parse_command_line(t) {
            Some(tokens) => (ReplActionView::CliCommand(tokens), persona),
            None => (ReplActionView::AskPrompt(spec_prompt_for(persona, t)), persona),
        }
    }
}

/// The interactive shell's state: the persona questions are asked under.
pub struct ReplEngine {
    current_persona: String,
}

impl ReplEngine {
    /// The persona in effect.
    pub closed spec fn persona(&self) -> Seq<char> {
        self.current_persona@
    }

    /// A shell under the default persona.
    pub fn new() -> (r: ReplEngine)
        ensures
            r.persona() == "default"@,
    {
        ReplEngine { current_persona: String::from_str("default") }
    }

    /// The persona in effect, for display.
    pub fn current_persona(&self) -> (r: &String)
        ensures
            r@ == self.persona(),
    {
        &self.current_persona
    }

    /// The help text.
    pub fn show_help(&self) -> (r: String)
        ensures
            r@ == spec_help_text(),
    {
        String::from_str(
            "Commands:\n\nSlash commands:\n  /help            show this help message\n  /exit, /quit     leave the shell\n  /persona [name]  set or show the current persona\n  /clear           clear the screen\n  /status          show shell status\n  /test, /build, /explain  run a slash command over a file\n\nCLI commands:\n  agent ls | spawn <id> [--persona <name>] | stop <id> | status <id>\n  ask <question> [--persona <name>]\n  version\n\nAnything else is sent as a question under the current persona.\n",
        )
    }

    /// Decides what to do with one input line; the only state change a line
    /// can make is switching the persona.
    pub fn step_line(&mut self, line: &str) -> (r: ReplAction)
        ensures
            (r@, final(self).persona()) == spec_step_line(old(self).persona(), line@),
    {
        let trimmed = trim_str(line);
        let n = trimmed.unicode_len();
        if n == 0 {
            return ReplAction::Idle;
        }
        if trimmed.get_char(0) == '/' {
            let rest = trimmed.substring_char(1, n);
            let parts = split_whitespace_tokens(rest);
            if parts.len() == 0 {
                return ReplAction::Output(String::from_str("Empty command"));
            }
            let head = parts[0].as_str();
            if str_eq(head, "help") {
                ReplAction::Output(self.show_help())
            } else if str_eq(head, "exit") || str_eq(head, "quit") {
                ReplAction::Exit
            } else if str_eq(head, "persona") {
                if parts.len() > 1 {
                    self.current_persona = parts[1].clone();
                    let out = String::from_str("Switched to persona: ").concat(
                        parts[1].as_str(),
                    );
                    ReplAction::Output(out)
                } else {
                    let out = String::from_str("Current persona: ").concat(
                        self.current_persona.as_str(),
                    );
                    ReplAction::Output(out)
                }
            } else if str_eq(head, "clear") {
                ReplAction::Output(String::from_str("\x1B[2J\x1B[1;1H"))
            } else if str_eq(head, "status") {
                ReplAction::Output(String::from_str("REPL Status: Ready"))
            } else if str_eq(head, "test") || str_eq(head, "build") || str_eq(head, "explain") {
                ReplAction::RunSlash(String::from_str(trimmed))
            } else {
                let out = String::from_str("Unknown command: /").concat(head);
                ReplAction::Output(out)
            }
        } else {
            match parse_command_line(trimmed) {
                Some(tokens) => ReplAction::CliCommand(tokens),
                None => {
                    let prompt = prompt_for(self.current_persona.as_str(), trimmed);
                    ReplAction::AskPrompt(prompt)
                },
            }
        }
    }
}

} // verus!
