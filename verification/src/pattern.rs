//! Regular expressions, as the `regex` crate compiles and matches them.
use vstd::prelude::*;

verus! {

/// What `RegexBuilder::build` gives for a pattern with case-insensitive
/// matching switched on or off: `Ok` where the pattern compiles, else the
/// message of a syntax error (`Some`) or no message for the other errors
/// (`None`).
pub uninterp spec fn regex_build_outcome(pattern: Seq<char>, case_insensitive: bool) -> Result<
    (),
    Option<Seq<char>>,
>;

/// What `Regex::is_match` gives for a compiled pattern and a haystack: whether
/// the pattern matches anywhere in the haystack.
pub uninterp spec fn regex_is_match(pattern: Seq<char>, case_insensitive: bool, haystack: Seq<
    char,
>) -> bool;

/// What `Regex::captures_len` gives for a compiled pattern: the number of
/// capture groups, the implicit group of the whole match included.
pub uninterp spec fn regex_captures_len(pattern: Seq<char>, case_insensitive: bool) -> nat;

/// Compiles `pattern` with `RegexBuilder::new(..).case_insensitive(..).build()`
/// and reports whether that succeeded, and the message of a syntax error
/// (`regex::Error::Syntax`) where it did not. Nothing is claimed of which
/// patterns compile beyond the name `regex_build_outcome`.
#[verifier::external_body]
pub fn build_regex(pattern: &str, case_insensitive: bool) -> (r: Result<(), Option<String>>)
    ensures
        match r {
            Ok(()) => regex_build_outcome(pattern@, case_insensitive) == Ok::<(), Option<Seq<char>>>(()),
            Err(Some(m)) => regex_build_outcome(pattern@, case_insensitive) == Err::<(), Option<Seq<char>>>(Some(m@)),
            Err(None) => regex_build_outcome(pattern@, case_insensitive) == Err::<(), Option<Seq<char>>>(None),
        },
{
    match ::regex::RegexBuilder::new(pattern).case_insensitive(case_insensitive).build() {
        Ok(_) => Ok(()),
        Err(::regex::Error::Syntax(message)) => Err(Some(message)),
        Err(_) => Err(None),
    }
}

/// Compiles `pattern` as `build_regex` does and calls `Regex::is_match` on
/// `haystack`. The pattern must compile, so that unwrapping cannot panic.
#[verifier::external_body]
fn compiled_is_match(pattern: &str, case_insensitive: bool, haystack: &str) -> (r: bool)
    requires
        regex_build_outcome(pattern@, case_insensitive) is Ok,
    ensures
        r == regex_is_match(pattern@, case_insensitive, haystack@),
{
    ::regex::RegexBuilder::new(pattern).case_insensitive(case_insensitive).build().unwrap().is_match(
        haystack,
    )
}

/// What `Regex::captures` gives for a compiled pattern and a haystack, as
/// the text of its first capture group: nothing where the pattern does not
/// match or the group took part in no match.
pub uninterp spec fn regex_first_group(pattern: Seq<char>, case_insensitive: bool, haystack: Seq<
    char,
>) -> Option<Seq<char>>;

/// Compiles `pattern` as `build_regex` does, calls `Regex::captures` on
/// `haystack` and takes the text of group 1. The pattern must compile, so
/// that unwrapping cannot panic.
#[verifier::external_body]
fn compiled_first_group(pattern: &str, case_insensitive: bool, haystack: &str) -> (r: Option<String>)
    requires
        regex_build_outcome(pattern@, case_insensitive) is Ok,
    ensures
        match r {
            Some(g) => regex_first_group(pattern@, case_insensitive, haystack@) == Some(g@),
            None => regex_first_group(pattern@, case_insensitive, haystack@) is None,
        },
{
    let regex = ::regex::RegexBuilder::new(pattern).case_insensitive(case_insensitive).build().unwrap();
    match regex.captures(haystack) {
        Some(c) => c.get(1).map(|m| m.as_str().to_string()),
        None => None,
    }
}

/// Compiles `pattern` as `build_regex` does and calls `Regex::captures_len`.
/// The pattern must compile, so that unwrapping cannot panic.
#[verifier::external_body]
fn compiled_captures_len(pattern: &str, case_insensitive: bool) -> (r: usize)
    requires
        regex_build_outcome(pattern@, case_insensitive) is Ok,
    ensures
        r == regex_captures_len(pattern@, case_insensitive),
{
    ::regex::RegexBuilder::new(pattern).case_insensitive(case_insensitive).build().unwrap().captures_len()
}

/// A regular expression that compiles with case-insensitive matching, kept
/// as its pattern string.
#[derive(Debug)]
pub struct Regex {
    pattern: String,
}

impl View for Regex {
    type V = Seq<char>;

    closed spec fn view(&self) -> Seq<char> {
        self.pattern@
    }
}

impl Clone for Regex {
    fn clone(&self) -> (r: Self)
        ensures
            r@ == self@,
    {
        proof {
            use_type_invariant(self);
        }
        Regex { pattern: self.pattern.clone() }
    }
}

impl Regex {
    #[verifier::type_invariant]
    closed spec fn compiles(self) -> bool {
        regex_build_outcome(self.pattern@, true) is Ok
    }

    /// Compiles a case-insensitive regex, or gives the outcome of the failed
    /// compilation.
    pub fn new(pattern: &str) -> (r: Result<Regex, Option<String>>)
        ensures
            match r {
                Ok(re) => re@ == pattern@ && regex_build_outcome(pattern@, true) is Ok,
                Err(e) => match e {
                    Some(m) => regex_build_outcome(pattern@, true) == Err::<(), Option<Seq<char>>>(Some(m@)),
                    None => regex_build_outcome(pattern@, true) == Err::<(), Option<Seq<char>>>(None),
                },
            },
    {
        match build_regex(pattern, true) {
            Ok(()) => Ok(Regex { pattern: crate::text::string_from_str(pattern) }),
            Err(e) => Err(e),
        }
    }

    /// The pattern string.
    pub fn as_str(&self) -> (r: &str)
        ensures
            r@ == self@,
    {
        self.pattern.as_str()
    }

    /// Whether the regex matches anywhere in `haystack`.
    pub fn is_match(&self, haystack: &str) -> (r: bool)
        ensures
            r == regex_is_match(self@, true, haystack@),
    {
        proof {
            use_type_invariant(self);
        }
        compiled_is_match(self.pattern.as_str(), true, haystack)
    }

    /// The text of the first capture group where the regex matches `haystack`.
    pub fn first_group(&self, haystack: &str) -> (r: Option<String>)
        ensures
            match r {
                Some(g) => regex_first_group(self@, true, haystack@) == Some(g@),
                None => regex_first_group(self@, true, haystack@) is None,
            },
    {
        proof {
            use_type_invariant(self);
        }
        compiled_first_group(self.pattern.as_str(), true, haystack)
    }

    /// The number of capture groups, the group of the whole match included.
    pub fn captures_len(&self) -> (r: usize)
        ensures
            r == regex_captures_len(self@, true),
    {
        proof {
            use_type_invariant(self);
        }
        compiled_captures_len(self.pattern.as_str(), true)
    }
}

/// Whether `pattern`, compiled case-sensitively, matches anywhere in
/// `haystack`; `None` where the pattern does not compile.
pub fn match_once(pattern: &str, haystack: &str) -> (r: Option<bool>)
    ensures
        match r {
            Some(b) => regex_build_outcome(pattern@, false) is Ok && b == regex_is_match(
                pattern@,
                false,
                haystack@,
            ),
            None => regex_build_outcome(pattern@, false) is Err,
        },
{
    match build_regex(pattern, false) {
        Ok(()) => Some(compiled_is_match(pattern, false, haystack)),
        Err(_) => None,
    }
}

} // verus!
