//! Name patterns: regular expressions that a display name is held against.

use vstd::prelude::*;
use vstd::string::StringExecFns;

verus! {

/// Whether `regex::Regex::new` accepts the pattern `pattern`.
pub uninterp spec fn regex_compiles(pattern: Seq<char>) -> bool;

/// Whether the regular expression compiled from `pattern` matches somewhere
/// in `haystack`, as `regex::Regex::is_match` tells.
pub uninterp spec fn regex_is_match(pattern: Seq<char>, haystack: Seq<char>) -> bool;

/// Calls `regex::Regex::new` on `pattern` and, where that gives a regular
/// expression, `regex::Regex::is_match` of it on `haystack`. `None` where
/// the pattern is refused.
#[verifier::external_body]
fn regex_search(pattern: &str, haystack: &str) -> (found: Option<bool>)
    ensures
        found == if regex_compiles(pattern@) {
            Some(regex_is_match(pattern@, haystack@))
        } else {
            None::<bool>
        },
{
    match regex::Regex::new(pattern) {
        Ok(compiled) => Some(compiled.is_match(haystack)),
        Err(_) => None,
    }
}

/// The pattern was refused as a regular expression.
#[derive(Clone, Copy, Debug, PartialEq, Eq, Structural)]
pub struct PatternCompileError;

/// A regular expression that compiles, kept as its source text.
pub struct NamePattern {
    source: String,
}

impl View for NamePattern {
    type V = Seq<char>;

    closed spec fn view(&self) -> Seq<char> {
        self.source@
    }
}

impl NamePattern {
    #[verifier::type_invariant]
    spec fn inv(self) -> bool {
        regex_compiles(self.source@)
    }

    /// The pattern written as `source`, or an error where `source` is no
    /// regular expression.
    pub fn new(source: &str) -> (r: Result<NamePattern, PatternCompileError>)
        ensures
            r is Ok <==> regex_compiles(source@),
            r matches Ok(pattern) ==> pattern@ == source@,
    {
        match regex_search(source, "") {
            Some(_) => Ok(NamePattern { source: String::from_str(source) }),
            None => Err(PatternCompileError),
        }
    }

    /// The text the pattern was written as.
    pub fn as_str(&self) -> (r: &str)
        ensures
            r@ == self@,
            regex_compiles(r@),
    {
        proof {
            use_type_invariant(self);
        }
        self.source.as_str()
    }

    /// Whether the pattern matches somewhere in `name`.
    pub fn is_match(&self, name: &str) -> (r: bool)
        ensures
            r == regex_is_match(self@, name@),
    {
        proof {
            use_type_invariant(self);
        }
        match regex_search(self.source.as_str(), name) {
            Some(found) => found,
            None => false,
        }
    }
}

} // verus!
