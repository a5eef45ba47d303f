//! The configuration of one search run, made once from the command line's
//! arguments and read-only from then on.

use vstd::prelude::*;
use crate::search::search;
use crate::search::search_case_insensitive;
use crate::search::search_result;
use crate::search::search_result_case_insensitive;

verus! {

/// Why no configuration could be made.
#[derive(Debug, Clone, Copy, PartialEq, Eq, Structural)]
pub enum ConfigError {
    /// Fewer than three arguments were given: the program's name, the query
    /// and the file's name are all needed.
    InsufficientArguments,
}

impl ConfigError {
    /// A short message for the user.
    pub fn message(&self) -> (text: &'static str)
        ensures
            text@ == "Not enough params"@,
    {
        match self {
            ConfigError::InsufficientArguments => "Not enough params",
        }
    }
}

/// What to look for, where, and whether case matters.
#[derive(Debug)]
pub struct Config {
    query: String,
    filename: String,
    case_sensitive: bool,
}

/// A configuration as the contracts see it.
pub ghost struct ConfigView {
    pub query: Seq<char>,
    pub filename: Seq<char>,
    pub case_sensitive: bool,
}

impl ConfigView {
    /// What a search run with this configuration finds in `contents`.
    pub open spec fn finds(self, contents: Seq<char>) -> Seq<Seq<char>> {
        if self.case_sensitive {
            search_result(self.query, contents)
        } else {
            search_result_case_insensitive(self.query, contents)
        }
    }
}

/// What the arguments of a command line make: the second of them is the
/// query and the third the file's name, and the search is case-sensitive
/// unless the toggle is set. Fewer than three arguments make nothing.
pub open spec fn parse(args: Seq<Seq<char>>, case_insensitive: bool) -> Result<
    ConfigView,
    ConfigError,
> {
    if args.len() < 3 {
        Err(ConfigError::InsufficientArguments)
    } else {
        Ok(ConfigView { query: args[1], filename: args[2], case_sensitive: !case_insensitive })
    }
}

/// A command line makes a configuration exactly if it has three arguments
/// or more; with fewer the one error comes.
pub proof fn lemma_three_arguments_are_needed(args: Seq<Seq<char>>, case_insensitive: bool)
    ensures
        parse(args, case_insensitive) is Ok <==> args.len() >= 3,
        args.len() < 3 ==> parse(args, case_insensitive) == Err::<ConfigView, ConfigError>(
            ConfigError::InsufficientArguments,
        ),
{
}

/// Three arguments or more always make a configuration, and only the first
/// three count: command lines that agree in them make the same.
pub proof fn lemma_only_three_arguments_count(
    args: Seq<Seq<char>>,
    others: Seq<Seq<char>>,
    case_insensitive: bool,
)
    requires
        args.len() >= 3,
        others.len() >= 3,
        args.take(3) == others.take(3),
    ensures
        parse(args, case_insensitive) is Ok,
        parse(args, case_insensitive) == parse(others, case_insensitive),
{
    assert(args.take(3)[1] == others.take(3)[1]);
    assert(args.take(3)[2] == others.take(3)[2]);
}

impl View for Config {
    type V = ConfigView;

    closed spec fn view(&self) -> ConfigView {
        ConfigView {
            query: self.query@,
            filename: self.filename@,
            case_sensitive: self.case_sensitive,
        }
    }
}

impl Config {
    /// Makes a configuration from the arguments of the command line, the
    /// program's name first, then the query, then the file's name; further
    /// arguments are ignored. `case_insensitive` tells whether the toggle
    /// for a case-insensitive search is set: the search is case-sensitive
    /// exactly if it is not. Fails only where fewer than three arguments are
    /// given: neither the query nor the file's name is looked at, and an
    /// empty query is accepted as any other.
    pub fn new(args: &[String], case_insensitive: bool) -> (result: Result<Config, ConfigError>)
        ensures
            match parse(args.deep_view(), case_insensitive) {
                Ok(view) => result matches Ok(config) && config@ == view,
                Err(error) => result matches Err(e) && e == error,
            },
    {
        if args.len() < 3 {
            return Err(ConfigError::InsufficientArguments);
        }
        let query = args[1].clone();
        let filename = args[2].clone();
        Ok(Config { query, filename, case_sensitive: !case_insensitive })
    }

    /// The text to look for.
    pub fn query(&self) -> (query: &str)
        ensures
            query@ == self@.query,
    {
        self.query.as_str()
    }

    /// The name of the file to search.
    pub fn filename(&self) -> (filename: &str)
        ensures
            filename@ == self@.filename,
    {
        self.filename.as_str()
    }

    /// Whether the search tells capital letters from small ones.
    pub fn case_sensitive(&self) -> (case_sensitive: bool)
        ensures
            case_sensitive == self@.case_sensitive,
    {
        self.case_sensitive
    }

    /// Searches `contents` as this configuration asks: for its query, with
    /// regard to case or without.
    pub fn search_in<'a>(&'a self, contents: &'a str) -> (result: Vec<&'a str>)
        ensures
            result.deep_view() == self@.finds(contents@),
    {
        if self.case_sensitive {
            search(self.query.as_str(), contents)
        } else {
            search_case_insensitive(self.query.as_str(), contents)
        }
    }
}

} // verus!
