use vstd::prelude::*;
use vstd::string::StringExecFns;

verus! {

/// The most lexicons one bot may serve: a command offers at most that many choices.
pub const MAX_LEXICONS: usize = 25;

/// A message answered to a command: whether it reports a success, its title
/// and its text.
#[derive(Debug)]
pub struct Reply {
    pub success: bool,
    pub title: String,
    pub text: String,
}

impl Reply {
    pub fn success(title: String, text: String) -> (r: Reply)
        ensures
            r.success,
            r.title == title,
            r.text == text,
    {
        Reply { success: true, title, text }
    }

    pub fn failure(title: String, text: String) -> (r: Reply)
        ensures
            !r.success,
            r.title == title,
            r.text == text,
    {
        Reply { success: false, title, text }
    }

    /// The failure answered to a command whose options are malformed.
    pub fn invalid_command() -> (r: Reply)
        ensures
            !r.success,
            r.title@ == "Internal error"@,
            r.text@ == "The command is invalid."@,
    {
        Reply::failure(String::from_str("Internal error"), String::from_str("The command is invalid."))
    }

    /// The failure answered to a command that has no handler.
    pub fn unimplemented() -> (r: Reply)
        ensures
            !r.success,
            r.title@ == "Internal error"@,
            r.text@ == "The command is not implemented."@,
    {
        Reply::failure(
            String::from_str("Internal error"),
            String::from_str("The command is not implemented."),
        )
    }
}

/// Why a configuration with `n` lexicons cannot be served, if it cannot.
pub fn lexicon_count_problem(n: usize) -> (r: Option<String>)
    ensures
        n == 0 ==> r is Some && r->Some_0@ == "No lexicons present"@,
        n > MAX_LEXICONS ==> r is Some && r->Some_0@ == "Too many lexicons (max. 25)"@,
        0 < n <= MAX_LEXICONS ==> r is None,
{
    if n == 0 {
        Some(String::from_str("No lexicons present"))
    } else if n > MAX_LEXICONS {
        Some(String::from_str("Too many lexicons (max. 25)"))
    } else {
        None
    }
}

} // verus!
