use regex::Regex;
use vstd::prelude::*;

verus! {

/// One grouping rule: URIs that match `regexp` are rewritten with `name`.
#[derive(Debug)]
pub struct Grouping {
    /// Source text of the pattern.
    pub regexp: String,
    /// Replacement template; where absent, the pattern's source text is used.
    pub name: Option<String>,
    /// The compiled pattern; a rule without one never matches.
    pub compiled_regexp: Option<Regex>,
}

/// The grouping rules in the order in which they are tried.
#[derive(Debug)]
pub struct Config {
    pub grouping: Vec<Grouping>,
}

/// Why a set of grouping rules was rejected.
#[derive(Debug, Clone, Copy, PartialEq, Eq, Structural)]
pub enum ConfigError {
    /// The pattern of the rule at `index` does not compile: it is no valid
    /// regular expression, or one too large.
    InvalidPattern { index: usize },
}

impl Grouping {
    /// The text that a match of this rule is replaced with: the template,
    /// and the pattern's own source text where the rule has none.
    pub open spec fn replacement(self) -> Seq<char> {
        match self.name {
            Some(name) => name@,
            None => self.regexp@,
        }
    }

    /// The text that a match of this rule is replaced with: the template,
    /// and the pattern's own source text where the rule has none.
    pub fn replacement_text(&self) -> (r: &str)
        ensures
            r@ == self.replacement(),
    {
        match &self.name {
            Some(name) => name.as_str(),
            None => self.regexp.as_str(),
        }
    }
}

} // verus!
