use vstd::prelude::*;
use crate::pattern::{PathToken, captures_fit, exact_regex_text, fill, group_count, matches_path, views};

verus! {

/// The characters that the regex syntax gives a meaning and that escaping prefixes with `\`.
pub open spec fn is_meta_char(c: char) -> bool {
    c == '\\' || c == '.' || c == '+' || c == '*' || c == '?' || c == '(' || c == ')'
        || c == '|' || c == '[' || c == ']' || c == '{' || c == '}' || c == '^' || c == '$'
        || c == '#' || c == '&' || c == '-' || c == '~'
}

/// The escaped form of one character.
pub open spec fn escape_char(c: char) -> Seq<char> {
    if is_meta_char(c) {
        seq!['\\', c]
    } else {
        seq![c]
    }
}

/// The escaped form of a text: each character escaped in turn.
pub open spec fn escaped(s: Seq<char>) -> Seq<char>
    decreases s.len(),
{
    if s.len() == 0 {
        Seq::empty()
    } else {
        escaped(s.drop_last()) + escape_char(s.last())
    }
}

/// Relies on regex::escape: each meta character is preceded by a backslash,
/// every other character is kept.
#[verifier::external_body]
pub(crate) fn escape_literal(s: &str) -> (r: String)
    ensures
        r@ == escaped(s@),
{
    regex::escape(s)
}

#[verifier::external_type_specification]
#[verifier::external_body]
pub struct ExRegex(regex::Regex);

#[verifier::external_type_specification]
#[verifier::external_body]
pub struct ExRegexSet(regex::RegexSet);

/// A compiled regex together with the text it was compiled from.
///
/// Only `compile` builds one, so `re` is always the compilation of `source`.
pub struct CompiledRegex {
    source: String,
    re: regex::Regex,
}

impl View for CompiledRegex {
    type V = Seq<char>;

    closed spec fn view(&self) -> Seq<char> {
        self.source@
    }
}

impl CompiledRegex {
    /// The regex text.
    pub fn as_str(&self) -> (r: &str)
        ensures
            r@ == self@,
    {
        self.source.as_str()
    }
}

/// A compiled set of regexes together with the texts it was compiled from, in order.
///
/// Only `compile_set` builds one, so `set` is always the compilation of `sources`.
pub struct CompiledSet {
    sources: Vec<String>,
    set: regex::RegexSet,
}

impl View for CompiledSet {
    type V = Seq<Seq<char>>;

    closed spec fn view(&self) -> Seq<Seq<char>> {
        views(self.sources@)
    }
}

impl CompiledSet {
    /// The number of patterns in the set.
    pub fn len(&self) -> (r: usize)
        ensures
            r == self@.len(),
    {
        self.sources.len()
    }
}

/// The captured texts of groups `1..` of a successful match.
pub open spec fn group_texts(v: Seq<Option<String>>) -> Seq<Seq<char>> {
    v.drop_first().map_values(|o: Option<String>| o->Some_0@)
}

/// Whether a regex text compiles (with the default size limits).
pub uninterp spec fn regex_compiles(src: Seq<char>) -> bool;

/// Whether a list of regex texts compiles into one set (with the default size limits).
pub uninterp spec fn regex_set_compiles(srcs: Seq<Seq<char>>) -> bool;

/// Relies on regex::Regex::new: compiles `src`; whether it succeeds depends on
/// the text alone; an error comes back as its display text.
#[verifier::external_body]
pub(crate) fn compile(src: &str) -> (r: Result<CompiledRegex, String>)
    ensures
        r is Ok <==> regex_compiles(src@),
        r matches Ok(c) ==> c@ == src@,
{
    match regex::Regex::new(src) {
        Ok(re) => Ok(CompiledRegex { source: src.to_string(), re }),
        Err(e) => Err(e.to_string()),
    }
}

/// Relies on regex::Regex::captures. For a pattern `(?s)^...$` built from path
/// tokens, a match is a split of the whole text into the literals and one value
/// per group; group 0 is the whole text and every other group takes part.
#[verifier::external_body]
pub(crate) fn captures(re: &CompiledRegex, text: &str) -> (r: Option<Vec<Option<String>>>)
    ensures
        forall|ts: Seq<PathToken>|
            #![trigger exact_regex_text(ts)]
            re@ == exact_regex_text(ts) ==> {
                &&& (r is Some <==> matches_path(ts, text@))
                &&& r matches Some(v) ==> {
                    &&& v@.len() == group_count(ts) + 1
                    &&& forall|k: int| 0 <= k < v@.len() ==> v@[k] is Some
                    &&& captures_fit(ts, group_texts(v@))
                    &&& fill(ts, group_texts(v@)) == text@
                }
            },
{
    re.re.captures(text).map(|c| c.iter().map(|m| m.map(|m| m.as_str().to_string())).collect())
}

/// Relies on regex::RegexSet::new: compiles all of `srcs` into one set, in order;
/// whether it succeeds depends on the texts alone;
/// an error comes back as its display text.
#[verifier::external_body]
pub(crate) fn compile_set(srcs: &Vec<String>) -> (r: Result<CompiledSet, String>)
    ensures
        r is Ok <==> regex_set_compiles(views(srcs@)),
        r matches Ok(c) ==> c@ == views(srcs@),
{
    match regex::RegexSet::new(srcs) {
        Ok(set) => Ok(CompiledSet { sources: srcs.clone(), set }),
        Err(e) => Err(e.to_string()),
    }
}

/// Relies on regex::RegexSet::matches: the indices of the patterns that match
/// `text`, in ascending order. For a pattern `(?s)^...$` built from path tokens,
/// it matches exactly the texts in the language of those tokens.
#[verifier::external_body]
pub(crate) fn set_matches(set: &CompiledSet, text: &str) -> (r: Vec<usize>)
    ensures
        forall|a: int, b: int| 0 <= a < b < r@.len() ==> r@[a] < r@[b],
        forall|k: int| 0 <= k < r@.len() ==> r@[k] < set@.len(),
        forall|i: int, ts: Seq<PathToken>|
            #![trigger set@[i], exact_regex_text(ts)]
            0 <= i < set@.len() && set@[i] == exact_regex_text(ts) ==> (r@.contains(i as usize)
                <==> matches_path(ts, text@)),
{
    set.set.matches(text).into_iter().collect()
}

} // verus!
