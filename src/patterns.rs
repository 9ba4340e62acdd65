use vstd::prelude::*;

verus! {

/// Marks a programming run that went through, in any letter case.
pub const SUCCESS_PATTERN: &'static str = "(?i)Programmer was successful";

/// Marks a programming run that reported a problem, in any letter case.
pub const ERROR_PATTERN: &'static str = "(?i)error";

/// A line of the discovery tool's listing, `<number>) <name>`: digits, a
/// closing parenthesis, optional white space, then the name, which is the
/// first capture group.
pub const DEVICE_PATTERN: &'static str = r"^\d+\)\s*(.+)";

#[verifier::external_type_specification]
#[verifier::external_body]
pub struct ExRegexError(regex::Error);

/// Whether the regular expression `pattern` matches somewhere in `text`.
pub uninterp spec fn pattern_found(pattern: Seq<char>, text: Seq<char>) -> bool;

/// The text of the first capture group of the leftmost match of `pattern` in
/// `text`, or `None` when the pattern does not match or the group took no part.
pub uninterp spec fn first_group(pattern: Seq<char>, text: Seq<char>) -> Option<Seq<char>>;

/// Relies on `regex::Regex::new`, which compiles `pattern` or fails with
/// `regex::Error` only on an invalid or oversized pattern (the three patterns
/// of this crate are valid and small), and `regex::Regex::is_match`, which
/// says whether the compiled expression matches anywhere in `text`.
#[verifier::external_body]
pub(crate) fn regex_finds(pattern: &str, text: &str) -> (r: Result<bool, regex::Error>)
    ensures
        r matches Ok(b) ==> b == pattern_found(pattern@, text@),
        (pattern@ == SUCCESS_PATTERN@ || pattern@ == ERROR_PATTERN@) ==> r is Ok,
{
    regex::Regex::new(pattern).map(|re| re.is_match(text))
}

/// Relies on `regex::Regex::new`, as above, and `regex::Regex::captures`
/// with `Captures::get(1)`: the first group of the leftmost match, if any.
#[verifier::external_body]
pub(crate) fn regex_first_group(pattern: &str, text: &str) -> (r: Result<Option<String>, regex::Error>)
    ensures
        r matches Ok(c) ==> (c is None <==> first_group(pattern@, text@) is None),
        r matches Ok(c) ==> (c matches Some(s) ==> first_group(pattern@, text@) == Some(s@)),
        pattern@ == DEVICE_PATTERN@ ==> r is Ok,
{
    regex::Regex::new(pattern).map(
        |re| re.captures(text).and_then(|c| c.get(1)).map(|m| m.as_str().to_string()),
    )
}

} // verus!
