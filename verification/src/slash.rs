//! Slash commands: parsing a user input line such as
//! `/test --persona rusty --file src/main.rs` into a command, and rendering
//! a parsed command into the final prompt.
//!
//! The grammar is given by `spec_parse_with_personas`: the first token names
//! the command (leading slashes stripped); the rest is a flag list where
//! `--persona`/`-p` selects a known persona and `--file`/`-f` attaches a
//! file path. Reading the file itself happens outside the library; `render`
//! takes the file's content as an argument.

use vstd::prelude::*;

use crate::error::Error;
use crate::text::{split_whitespace_tokens, split_ws, str_eq, str_starts_with, spec_starts_with, views_of};

verus! {

/// A persona: a name and the system prompt it stands for.
#[derive(Debug)]
pub struct Persona {
    pub name: String,
    pub system_prompt: String,
}

/// Mathematical image of a `Persona`.
pub ghost struct PersonaView {
    pub name: Seq<char>,
    pub system_prompt: Seq<char>,
}

impl View for Persona {
    type V = PersonaView;

    open spec fn view(&self) -> PersonaView {
        PersonaView { name: self.name@, system_prompt: self.system_prompt@ }
    }
}

impl Clone for Persona {
    fn clone(&self) -> (r: Self)
        ensures
            r@ == self@,
    {
        Persona { name: self.name.clone(), system_prompt: self.system_prompt.clone() }
    }
}

/// A parsed slash command.
#[derive(Debug)]
pub struct Command {
    pub name: String,
    pub persona: Option<Persona>,
    pub file_path: Option<String>,
}

/// Mathematical image of a `Command`.
pub ghost struct CommandView {
    pub name: Seq<char>,
    pub persona: Option<PersonaView>,
    pub file_path: Option<Seq<char>>,
}

impl View for Command {
    type V = CommandView;

    open spec fn view(&self) -> CommandView {
        CommandView {
            name: self.name@,
            persona: match self.persona {
                Some(ref p) => Some(p@),
                None => None,
            },
            file_path: match self.file_path {
                Some(ref f) => Some(f@),
                None => None,
            },
        }
    }
}

impl Default for Command {
    /// An empty command: no name, no persona, no file.
    fn default() -> (r: Command)
        ensures
            r@.name.len() == 0,
            r@.persona is None,
            r@.file_path is None,
    {
        Command { name: String::new(), persona: None, file_path: None }
    }
}

/// Why a line failed to parse or render.
pub ghost enum SlashError {
    Empty,
    MissingPersonaName,
    PersonaNotFound(Seq<char>),
    MissingFilePath,
    UnknownFlag(Seq<char>),
    UnknownShortFlag(Seq<char>),
    UnexpectedArgument(Seq<char>),
    UnknownCommand(Seq<char>),
}

/// The message text each parse failure carries.
pub open spec fn slash_error_message(e: SlashError) -> Seq<char> {
    match e {
        SlashError::Empty => "Empty command"@,
        SlashError::MissingPersonaName => "Missing persona name after --persona"@,
        SlashError::PersonaNotFound(n) => "Persona '"@ + n + "' not found"@,
        SlashError::MissingFilePath => "Missing file path after --file"@,
        SlashError::UnknownFlag(f) => "Unknown flag: "@ + f,
        SlashError::UnknownShortFlag(f) => "Unknown short flag: "@ + f,
        SlashError::UnexpectedArgument(t) => "Unexpected argument: "@ + t,
        SlashError::UnknownCommand(n) => "Unknown slash command: /"@ + n,
    }
}

/// Index of the first character of `s` at or after `i` that is not `/`.
pub open spec fn first_non_slash(s: Seq<char>, i: int) -> int
    recommends
        0 <= i <= s.len(),
    decreases s.len() - i,
{
    if i < 0 || i >= s.len() {
        i
    } else if s[i] == '/' {
        first_non_slash(s, i + 1)
    } else {
        i
    }
}

/// `s` with every leading `/` removed.
pub open spec fn spec_strip_slashes(s: Seq<char>) -> Seq<char> {
    s.skip(first_non_slash(s, 0))
}

proof fn lemma_first_non_slash_is(s: Seq<char>, i: int, a: int)
    requires
        0 <= i <= a <= s.len(),
        forall|k: int| i <= k < a ==> s[k] == '/',
        a == s.len() || s[a] != '/',
    ensures
        first_non_slash(s, i) == a,
    decreases a - i,
{
    if i < a {
        lemma_first_non_slash_is(s, i + 1, a);
    }
}

/// Removes the leading slashes of `s`.
fn strip_leading_slashes(s: &str) -> (r: String)
    ensures
        r@ == spec_strip_slashes(s@),
{
    let n = s.unicode_len();
    let mut a: usize = 0;
    while a < n && s.get_char(a) == '/'
        invariant
            a <= n,
            n == s@.len(),
            forall|k: int| 0 <= k < a ==> s@[k] == '/',
        decreases n - a,
    {
        a += 1;
    }
    proof {
        lemma_first_non_slash_is(s@, 0, a as int);
    }
    let r = String::from_str(s.substring_char(a, n));
    proof {
        assert(r@ =~= spec_strip_slashes(s@));
    }
    r
}

/// The first persona in `personas` whose name is `name`.
pub open spec fn spec_lookup_persona(personas: Seq<PersonaView>, name: Seq<char>) -> Option<
    PersonaView,
>
    decreases personas.len(),
{
    if personas.len() == 0 {
        None
    } else if personas[0].name == name {
        Some(personas[0])
    } else {
        spec_lookup_persona(personas.skip(1), name)
    }
}

/// The views of the personas in `v`.
pub open spec fn persona_views(v: Seq<Persona>) -> Seq<PersonaView> {
    v.map_values(|p: Persona| p@)
}

/// Looks a persona up by name.
fn lookup_persona(personas: &Vec<Persona>, name: &str) -> (r: Option<Persona>)
    ensures
        r matches Some(p) ==> spec_lookup_persona(persona_views(personas@), name@) == Some(p@),
        r is None ==> spec_lookup_persona(persona_views(personas@), name@) is None,
{
    let ghost pv = persona_views(personas@);
    proof {
        assert(pv.skip(0) =~= pv);
    }
    let mut k: usize = 0;
    while k < personas.len()
        invariant
            k <= personas.len(),
            pv == persona_views(personas@),
            spec_lookup_persona(pv, name@) == spec_lookup_persona(pv.skip(k as int), name@),
        decreases personas.len() - k,
    {
        let ghost rest = pv.skip(k as int);
        proof {
            assert(rest[0] == pv[k as int]);
            assert(rest.skip(1) =~= pv.skip(k as int + 1));
        }
        if str_eq(personas[k].name.as_str(), name) {
            let p = personas[k].clone();
            return Some(p);
        }
        k += 1;
    }
    proof {
        assert(pv.skip(pv.len() as int) =~= Seq::<PersonaView>::empty());
    }
    None
}

/// Parses the flag list of a slash command, from token `i` on.
pub open spec fn spec_parse_rest(
    tokens: Seq<Seq<char>>,
    i: int,
    personas: Seq<PersonaView>,
    cmd: CommandView,
) -> Result<CommandView, SlashError>
    decreases tokens.len() - i,
{
    if i < 0 || i >= tokens.len() {
        Ok(cmd)
    } else if tokens[i] == "--persona"@ || tokens[i] == "-p"@ {
        if i + 1 >= tokens.len() {
            Err(SlashError::MissingPersonaName)
        } else {
            match spec_lookup_persona(personas, tokens[i + 1]) {
                Some(p) => spec_parse_rest(
                    tokens,
                    i + 2,
                    personas,
                    CommandView { persona: Some(p), ..cmd },
                ),
                None => Err(SlashError::PersonaNotFound(tokens[i + 1])),
            }
        }
    } else if tokens[i] == "--file"@ || tokens[i] == "-f"@ {
        if i + 1 >= tokens.len() {
            Err(SlashError::MissingFilePath)
        } else {
            spec_parse_rest(
                tokens,
                i + 2,
                personas,
                CommandView { file_path: Some(tokens[i + 1]), ..cmd },
            )
        }
    } else if spec_starts_with(tokens[i], "--"@) {
        Err(SlashError::UnknownFlag(tokens[i]))
    } else if spec_starts_with(tokens[i], "-"@) && tokens[i].len() > 1 {
        Err(SlashError::UnknownShortFlag(tokens[i]))
    } else {
        Err(SlashError::UnexpectedArgument(tokens[i]))
    }
}

/// What parsing a whole line yields: the first whitespace-separated token
/// names the command, the rest is the flag list.
pub open spec fn spec_parse_with_personas(line: Seq<char>, personas: Seq<PersonaView>) -> Result<
    CommandView,
    SlashError,
> {
    let tokens = split_ws(line);
    if tokens.len() == 0 {
        Err(SlashError::Empty)
    } else {
        spec_parse_rest(
            tokens,
            1,
            personas,
            CommandView { name: spec_strip_slashes(tokens[0]), persona: None, file_path: None },
        )
    }
}

/// Turns a parse failure into the error the caller sees.
fn slash_error(kind: &SlashErrorToken) -> (r: Error)
    ensures
        r matches Error::Other(m) && m@ == slash_error_message(kind@),
{
    match kind {
        SlashErrorToken::Empty => Error::Other(String::from_str("Empty command")),
        SlashErrorToken::MissingPersonaName => Error::Other(
            String::from_str("Missing persona name after --persona"),
        ),
        SlashErrorToken::PersonaNotFound(n) => Error::Other(
            String::from_str("Persona '").concat(n.as_str()).concat("' not found"),
        ),
        SlashErrorToken::MissingFilePath => Error::Other(
            String::from_str("Missing file path after --file"),
        ),
        SlashErrorToken::UnknownFlag(f) => Error::Other(
            String::from_str("Unknown flag: ").concat(f.as_str()),
        ),
        SlashErrorToken::UnknownShortFlag(f) => Error::Other(
            String::from_str("Unknown short flag: ").concat(f.as_str()),
        ),
        SlashErrorToken::UnexpectedArgument(t) => Error::Other(
            String::from_str("Unexpected argument: ").concat(t.as_str()),
        ),
        SlashErrorToken::UnknownCommand(n) => Error::Other(
            String::from_str("Unknown slash command: /").concat(n.as_str()),
        ),
    }
}

/// Executable carrier of a parse failure and its offending token.
enum SlashErrorToken {
    Empty,
    MissingPersonaName,
    PersonaNotFound(String),
    MissingFilePath,
    UnknownFlag(String),
    UnknownShortFlag(String),
    UnexpectedArgument(String),
    UnknownCommand(String),
}

impl View for SlashErrorToken {
    type V = SlashError;

    closed spec fn view(&self) -> SlashError {
        match self {
            SlashErrorToken::Empty => SlashError::Empty,
            SlashErrorToken::MissingPersonaName => SlashError::MissingPersonaName,
            SlashErrorToken::PersonaNotFound(n) => SlashError::PersonaNotFound(n@),
            SlashErrorToken::MissingFilePath => SlashError::MissingFilePath,
            SlashErrorToken::UnknownFlag(f) => SlashError::UnknownFlag(f@),
            SlashErrorToken::UnknownShortFlag(f) => SlashError::UnknownShortFlag(f@),
            SlashErrorToken::UnexpectedArgument(t) => SlashError::UnexpectedArgument(t@),
            SlashErrorToken::UnknownCommand(n) => SlashError::UnknownCommand(n@),
        }
    }
}

/// Parses a slash command line against the given persona catalogue.
/// The outcome is exactly `spec_parse_with_personas` of the line: either the
/// parsed command, or an `Other` error carrying that failure's message.
pub fn parse_with_personas(line: &str, personas: &Vec<Persona>) -> (r: Result<Command, Error>)
    ensures
        r matches Ok(c) ==> spec_parse_with_personas(line@, persona_views(personas@)) == Ok::<
            CommandView,
            SlashError,
        >(c@),
        r matches Err(e) ==> (exists|se: SlashError|
            spec_parse_with_personas(line@, persona_views(personas@)) == Err::<
                CommandView,
                SlashError,
            >(se) && (e matches Error::Other(m) && m@ == #[trigger] slash_error_message(se))),
        r is Ok <==> spec_parse_with_personas(line@, persona_views(personas@)) is Ok,
{
    let ghost pv = persona_views(personas@);
    let ghost tokensv = split_ws(line@);
    let tokens = split_whitespace_tokens(line);
    if tokens.len() == 0 {
        return Err(slash_error(&SlashErrorToken::Empty));
    }
    let name = strip_leading_slashes(tokens[0].as_str());
    let mut cmd = Command { name, persona: None, file_path: None };
    let mut i: usize = 1;
    while i < tokens.len()
        invariant
            1 <= i <= tokens.len(),
            tokensv == split_ws(line@),
            tokensv.len() > 0,
            views_of(tokens@) == tokensv,
            pv == persona_views(personas@),
            spec_parse_with_personas(line@, pv) == spec_parse_rest(tokensv, i as int, pv, cmd@),
        decreases tokens.len() - i,
    {
        let ghost cmdpre = cmd@;
        let tok = tokens[i].as_str();
        if str_eq(tok, "--persona") || str_eq(tok, "-p") {
            if i + 1 >= tokens.len() {
                return Err(slash_error(&SlashErrorToken::MissingPersonaName));
            }
            match lookup_persona(personas, tokens[i + 1].as_str()) {
                Some(p) => {
                    cmd.persona = Some(p);
                    proof {
                        assert(cmd@ == (CommandView { persona: spec_lookup_persona(pv, tokensv[i as int + 1]), ..cmdpre }));
                    }
                    i += 2;
                },
                None => {
                    let n = tokens[i + 1].clone();
                    return Err(slash_error(&SlashErrorToken::PersonaNotFound(n)));
                },
            }
        } else if str_eq(tok, "--file") || str_eq(tok, "-f") {
            if i + 1 >= tokens.len() {
                return Err(slash_error(&SlashErrorToken::MissingFilePath));
            }
            let f = tokens[i + 1].clone();
            cmd.file_path = Some(f);
            proof {
                assert(cmd@ == (CommandView { file_path: Some(tokensv[i as int + 1]), ..cmdpre }));
            }
            i += 2;
        } else if str_starts_with(tok, "--") {
            let f = tokens[i].clone();
            return Err(slash_error(&SlashErrorToken::UnknownFlag(f)));
        } else if str_starts_with(tok, "-") && tok.unicode_len() > 1 {
            let f = tokens[i].clone();
            return Err(slash_error(&SlashErrorToken::UnknownShortFlag(f)));
        } else {
            let t = tokens[i].clone();
            return Err(slash_error(&SlashErrorToken::UnexpectedArgument(t)));
        }
    }
    Ok(cmd)
}

/// The prompt a command renders to, given the attached file's content.
pub open spec fn spec_render(cmd: CommandView, file_content: Option<Seq<char>>) -> Result<
    Seq<char>,
    SlashError,
> {
    let persona_part: Seq<char> = match cmd.persona {
        Some(p) => "SYSTEM PROMPT: "@ + p.system_prompt + "\n\n---\n\n"@,
        None => Seq::empty(),
    };
    let file_part: Seq<char> = match (cmd.file_path, file_content) {
        (Some(path), Some(content)) => "CONTEXT FROM FILE ("@ + path + "):\n```\n"@ + content
            + "\n```\n\n---\n\n"@,
        _ => Seq::empty(),
    };
    if cmd.name == "test"@ {
        Ok(
            persona_part + file_part + "TASK: "@
                + "Based on the context from the file, please write a comprehensive suite of unit tests for the code. Cover edge cases."@
                + "\n"@,
        )
    } else if cmd.name == "build"@ {
        Ok(
            persona_part + file_part + "TASK: "@
                + "Based on the context from the file, analyze the code for potential build issues or improvements."@
                + "\n"@,
        )
    } else if cmd.name == "explain"@ {
        Ok(
            persona_part + file_part + "TASK: "@
                + "Explain the code provided in the context file. Describe its purpose, how it works, and any potential improvements."@
                + "\n"@,
        )
    } else {
        Err(SlashError::UnknownCommand(cmd.name))
    }
}

/// Renders a parsed command into the final prompt. The caller supplies the
/// content of the attached file, read outside the library, exactly when the
/// command names one. Fails only on an unknown command name.
pub fn render(cmd: &Command, file_content: Option<&String>) -> (r: Result<String, Error>)
    requires
        cmd@.file_path is Some <==> file_content is Some,
    ensures
        r matches Ok(s) ==> spec_render(
            cmd@,
            match file_content {
                Some(c) => Some(c@),
                None => None,
            },
        ) == Ok::<Seq<char>, SlashError>(s@),
        r is Ok <==> spec_render(
            cmd@,
            match file_content {
                Some(c) => Some(c@),
                None => None,
            },
        ) is Ok,
        r matches Err(e) ==> (e matches Error::Other(m) && m@ == slash_error_message(
            SlashError::UnknownCommand(cmd@.name),
        )),
{
    let mut prompt = String::new();
    match &cmd.persona {
        Some(p) => {
            prompt = prompt.concat("SYSTEM PROMPT: ").concat(p.system_prompt.as_str()).concat(
                "\n\n---\n\n",
            );
        },
        None => {},
    }
    match (&cmd.file_path, file_content) {
        (Some(path), Some(content)) => {
            prompt = prompt.concat("CONTEXT FROM FILE (").concat(path.as_str()).concat(
                "):\n```\n",
            ).concat(content.as_str()).concat("\n```\n\n---\n\n");
        },
        _ => {},
    }
    let task: &'static str = if str_eq(cmd.name.as_str(), "test") {
        "Based on the context from the file, please write a comprehensive suite of unit tests for the code. Cover edge cases."
    } else if str_eq(cmd.name.as_str(), "build") {
        "Based on the context from the file, analyze the code for potential build issues or improvements."
    } else if str_eq(cmd.name.as_str(), "explain") {
        "Explain the code provided in the context file. Describe its purpose, how it works, and any potential improvements."
    } else {
        let n = cmd.name.clone();
        return Err(slash_error(&SlashErrorToken::UnknownCommand(n)));
    };
    let r = prompt.concat("TASK: ").concat(task).concat("\n");
    proof {
        let fc: Option<Seq<char>> = match file_content {
            Some(c) => Some(c@),
            None => None,
        };
        let sr = spec_render(cmd@, fc);
        assert(sr is Ok);
        assert(sr matches Ok(v) ==> r@ =~= v);
    }
    Ok(r)
}

} // verus!
