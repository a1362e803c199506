//! The filter that decides by its name whether a container is watched.

use vstd::prelude::*;

verus! {

/// The compiled regular expression of the `regex` crate, carried through as
/// it is: nothing is known of what it holds.
#[verifier::external_type_specification]
#[verifier::external_body]
pub struct ExRegex(regex::Regex);

/// Whether `re` has a match somewhere in `text`: whether `Regex::find`
/// returns a match.
pub uninterp spec fn regex_finds(re: regex::Regex, text: Seq<char>) -> bool;

/// `Regex::find`: whether there is a match depends on the expression and
/// the text alone.
#[verifier::external_body]
fn finds(re: &regex::Regex, text: &str) -> (found: bool)
    ensures
        found == regex_finds(*re, text@),
{
    re.find(text).is_some()
}

/// Whether `Regex::new` accepts `pattern`: whether it is a valid expression
/// that stays within the size limit that the `regex` crate sets by default.
pub uninterp spec fn pattern_compiles(pattern: Seq<char>) -> bool;

/// Whether the expression that `Regex::new` makes of `pattern` has a match
/// somewhere in `text`.
pub uninterp spec fn pattern_finds(pattern: Seq<char>, text: Seq<char>) -> bool;

/// `Regex::new`: whether a pattern is accepted depends on the pattern alone,
/// and so does what the expression that comes back matches.
#[verifier::external_body]
fn compiled(pattern: &str) -> (re: Option<regex::Regex>)
    ensures
        re.is_some() == pattern_compiles(pattern@),
        re matches Some(r) ==> forall|text: Seq<char>| #[trigger]
            regex_finds(r, text) == pattern_finds(pattern@, text),
{
    regex::Regex::new(pattern).ok()
}

/// A filter on container names, made of a compiled regular expression.
pub struct NameFilter {
    pub re: regex::Regex,
}

impl NameFilter {
    /// Whether the filter lets the name `name` pass.
    pub open spec fn passes(&self, name: Seq<char>) -> bool {
        regex_finds(self.re, name)
    }

    /// The filter that lets a name pass if `re` matches somewhere in it.
    pub fn new(re: regex::Regex) -> (filter: NameFilter)
        ensures
            filter.re == re,
    {
        NameFilter { re }
    }

    /// The filter of the pattern `pattern`, where it compiles: it lets a
    /// name pass if the pattern matches somewhere in it.
    pub fn compile(pattern: &str) -> (filter: Option<NameFilter>)
        ensures
            filter.is_some() == pattern_compiles(pattern@),
            filter matches Some(f) ==> forall|name: Seq<char>| #[trigger]
                f.passes(name) == pattern_finds(pattern@, name),
    {
        match compiled(pattern) {
            Some(re) => Some(NameFilter { re }),
            None => None,
        }
    }

    /// Whether the filter lets the name `name` pass.
    pub fn accepts(&self, name: &str) -> (r: bool)
        ensures
            r == self.passes(name@),
    {
        finds(&self.re, name)
    }
}

} // verus!
