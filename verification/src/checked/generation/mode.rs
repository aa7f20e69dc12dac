//! Which kind of generation a run performs.

use vstd::prelude::*;
use vstd::string::StringExecFns;
use crate::text::str_equals;

verus! {

/// Plain continuation of a prompt, or a chat turn.
#[derive(Debug, Clone, Copy, PartialEq, Eq, Structural)]
pub enum GenerationMode {
    Generate,
    Chat,
}

/// A mode name that is not one of the accepted ones.
#[derive(Debug, Clone, PartialEq, Eq)]
pub struct ParseGenerationModeError {
    value: String,
}

/// The name of a mode.
pub open spec fn mode_name(m: GenerationMode) -> Seq<char> {
    match m {
        GenerationMode::Generate => "generate"@,
        GenerationMode::Chat => "chat"@,
    }
}

/// The mode a name stands for: `generate` or its short form `gen`, or
/// `chat`; names are matched exactly.
pub open spec fn parse_mode(s: Seq<char>) -> Option<GenerationMode> {
    if s == "generate"@ || s == "gen"@ {
        Some(GenerationMode::Generate)
    } else if s == "chat"@ {
        Some(GenerationMode::Chat)
    } else {
        None
    }
}

impl GenerationMode {
    /// The name of the mode.
    pub fn as_str(self) -> (s: &'static str)
        ensures
            s@ == mode_name(self),
    {
        match self {
            GenerationMode::Generate => "generate",
            GenerationMode::Chat => "chat",
        }
    }

    /// Reads a mode name; any other text is refused, and the error keeps it.
    pub fn parse(value: &str) -> (r: Result<GenerationMode, ParseGenerationModeError>)
        ensures
            match parse_mode(value@) {
                Some(m) => r == Ok::<GenerationMode, ParseGenerationModeError>(m),
                None => r matches Err(e) && e.text() == value@,
            },
    {
        if str_equals(value, "generate") || str_equals(value, "gen") {
            Ok(GenerationMode::Generate)
        } else if str_equals(value, "chat") {
            Ok(GenerationMode::Chat)
        } else {
            Err(ParseGenerationModeError { value: String::from_str(value) })
        }
    }
}

impl Default for GenerationMode {
    fn default() -> (m: GenerationMode)
        ensures
            m == GenerationMode::Generate,
    {
        GenerationMode::Generate
    }
}

impl std::str::FromStr for GenerationMode {
    type Err = ParseGenerationModeError;

    fn from_str(value: &str) -> (r: Result<GenerationMode, ParseGenerationModeError>)
        ensures
            match parse_mode(value@) {
                Some(m) => r == Ok::<GenerationMode, ParseGenerationModeError>(m),
                None => r matches Err(e) && e.text() == value@,
            },
    {
        GenerationMode::parse(value)
    }
}

impl ParseGenerationModeError {
    /// The refused text.
    pub closed spec fn text(&self) -> Seq<char> {
        self.value@
    }

    /// The text that was refused.
    pub fn value(&self) -> (s: &str)
        ensures
            s@ == self.text(),
    {
        self.value.as_str()
    }

    /// The message of the error.
    pub fn message(&self) -> (s: String)
        ensures
            s@ == "invalid generation mode `"@ + self.text() + "`; expected `generate` or `chat`"@,
    {
        let mut s = String::from_str("invalid generation mode `");
        s.append(self.value.as_str());
        s.append("`; expected `generate` or `chat`");
        s
    }
}

} // verus!
