//! Line-recognition patterns, matched through the `regex` crate.

use vstd::prelude::*;

verus! {

#[verifier::external_type_specification]
#[verifier::external_body]
pub struct ExRegex(regex::Regex);

#[verifier::external_type_specification]
#[verifier::external_body]
pub struct ExRegexError(regex::Error);

/// Whether `regex` accepts `pattern` as a regular expression.
pub uninterp spec fn regex_compiles(pattern: Seq<char>) -> bool;

/// The named groups of the first match of regular expression `pattern` in `text`,
/// by group name, or `None` where `pattern` does not match `text`.
pub uninterp spec fn regex_captures(pattern: Seq<char>, text: Seq<char>) -> Option<Map<Seq<char>, Seq<char>>>;

/// The text of group `name` in `m`, where it took part in the match.
pub open spec fn group_of(m: Map<Seq<char>, Seq<char>>, name: Seq<char>) -> Option<Seq<char>> {
    if m.dom().contains(name) {
        Some(m[name])
    } else {
        None
    }
}

pub open spec fn opt_view(o: Option<String>) -> Option<Seq<char>> {
    match o {
        Some(s) => Some(s@),
        None => None,
    }
}

/// Whether `pattern` matches `text`.
pub open spec fn matches_line(pattern: Seq<char>, text: Seq<char>) -> bool {
    regex_captures(pattern, text).is_some()
}

/// Group `name` of the match of `pattern` in `text`; `None` where either is missing.
pub open spec fn captured(pattern: Seq<char>, text: Seq<char>, name: Seq<char>) -> Option<Seq<char>> {
    match regex_captures(pattern, text) {
        Some(m) => group_of(m, name),
        None => None,
    }
}

/// A compiled regular expression together with its source text.
pub struct Pattern {
    source: String,
    compiled: regex::Regex,
}

impl Pattern {
    /// The source text the pattern was compiled from.
    pub closed spec fn source(&self) -> Seq<char> {
        self.source@
    }

    /// Compiles `source`; fails where `regex` refuses it.
    pub fn new(source: &str) -> (r: Result<Pattern, regex::Error>)
        ensures
            r is Ok == regex_compiles(source@),
            r matches Ok(p) ==> p.source() == source@,
    {
        compile(source)
    }

    /// The groups `names` of the first match in `text`, or `None` where there is none.
    pub fn captures(&self, text: &str, names: &Vec<&str>) -> (r: Option<Vec<Option<String>>>)
        ensures
            r.is_some() == matches_line(self.source(), text@),
            r matches Some(v) ==> v.len() == names.len() && forall|i: int|
                0 <= i < v.len() ==> opt_view(#[trigger] v[i]) == captured(self.source(), text@, names[i]@),
    {
        capture_groups(self, text, names)
    }
}

/// Relies on `regex::Regex::new`: the source is compiled or refused, depending on
/// the source alone; the pattern keeps the source it was compiled from.
#[verifier::external_body]
fn compile(source: &str) -> (r: Result<Pattern, regex::Error>)
    ensures
        r is Ok == regex_compiles(source@),
        r matches Ok(p) ==> p.source() == source@,
{
    regex::Regex::new(source).map(|compiled| Pattern { source: source.to_string(), compiled })
}

/// Relies on `regex::Regex::captures` (the leftmost-first match, `None` where there
/// is none) and `regex::Captures::name` (a named group's text, `None` where the group
/// took no part in the match).
#[verifier::external_body]
fn capture_groups(p: &Pattern, text: &str, names: &Vec<&str>) -> (r: Option<Vec<Option<String>>>)
    ensures
        match regex_captures(p.source(), text@) {
            None => r is None,
            Some(m) => r matches Some(v) && v.len() == names.len() && forall|i: int|
                0 <= i < v.len() ==> opt_view(#[trigger] v[i]) == group_of(m, names[i]@),
        },
{
    p.compiled.captures(text).map(|c| names.iter().map(|n| c.name(n).map(|g| g.as_str().to_string())).collect())
}

} // verus!
