//! The grammar of the functions in a condition string.
//!
//! A parser is applied to a character sequence at a position and either
//! consumes some characters and yields a value (`Done`), does not apply
//! (`Backtrack`, after which alternatives are tried), or fails for good
//! (`Fail`, with the input at which the failure was found and why).
use vstd::prelude::*;

use crate::error::{IntErrorKind, KindView, ParsingError, ParsingErrorKind};
use crate::function::{ComparisonOperator, Function, FunctionView};
use crate::pattern::{regex_build_outcome, regex_captures_len, Regex};
use crate::text::{
    all_digits, all_hex_digits, chars_of, digits_value, digits_value_up_to, is_digit, is_hex_digit,
    push_char, push_chars, string_of,
};

verus! {

broadcast use vstd::string::group_string_axioms;

impl View for ComparisonOperator {
    type V = ComparisonOperator;

    open spec fn view(&self) -> ComparisonOperator {
        *self
    }
}

/// What a parser gives at a position: the number of characters it consumed
/// and its value, that it does not apply, or a failure with the input at
/// which it was found and its kind.
pub enum Parsed<T> {
    Done(nat, T),
    Backtrack,
    Fail(Seq<char>, KindView),
}

/// What an executable parser returns; its view is a `Parsed`.
pub enum Outcome<T> {
    Done(usize, T),
    Backtrack,
    Fail(ParsingError),
}

impl<T: View> View for Outcome<T> {
    type V = Parsed<T::V>;

    open spec fn view(&self) -> Parsed<T::V> {
        match self {
            Outcome::Done(n, v) => Parsed::Done(*n as nat, v@),
            Outcome::Backtrack => Parsed::Backtrack,
            Outcome::Fail(e) => Parsed::Fail(e.spec_input(), e.spec_kind()),
        }
    }
}

/// Whether an executable parser's result stays within the input.
pub open spec fn within<T>(r: Outcome<T>, s: Seq<char>, i: int) -> bool {
    r matches Outcome::Done(n, _) ==> i + n <= s.len()
}

/// The first result unless it backtracked, else the second: an ordered
/// choice between two alternatives.
pub open spec fn or_else<T>(a: Parsed<T>, b: Parsed<T>) -> Parsed<T> {
    if a is Backtrack {
        b
    } else {
        a
    }
}

/// A parser's result with its value transformed.
pub open spec fn map_value<T, U>(r: Parsed<T>, f: spec_fn(T) -> U) -> Parsed<U> {
    match r {
        Parsed::Done(n, v) => Parsed::Done(n, f(v)),
        Parsed::Backtrack => Parsed::Backtrack,
        Parsed::Fail(a, k) => Parsed::Fail(a, k),
    }
}

/// How many characters lie between a position and the end of the input.
pub open spec fn rem(s: Seq<char>, i: int) -> nat {
    if i <= s.len() {
        (s.len() - i) as nat
    } else {
        0
    }
}

/// The number of characters consumed by `t` at position `i`, where the input
/// continues with `t` there.
pub open spec fn tag(s: Seq<char>, i: int, t: Seq<char>) -> Option<nat> {
    if 0 <= i && i + t.len() <= s.len() && s.subrange(i, i + t.len()) == t {
        Some(t.len())
    } else {
        None
    }
}

/// The number of characters from position `i` on that are not in `set`.
pub open spec fn span_not_in(s: Seq<char>, i: int, set: Seq<char>) -> nat
    decreases rem(s, i),
{
    if 0 <= i < s.len() && !set.contains(s[i]) {
        1 + span_not_in(s, i + 1, set)
    } else {
        0
    }
}

/// The number of spaces and tabs from position `i` on.
pub open spec fn span_spaces(s: Seq<char>, i: int) -> nat
    decreases rem(s, i),
{
    if 0 <= i < s.len() && (s[i] == ' ' || s[i] == '\t') {
        1 + span_spaces(s, i + 1)
    } else {
        0
    }
}

/// The number of ASCII digits from position `i` on.
pub open spec fn span_digits(s: Seq<char>, i: int) -> nat
    decreases rem(s, i),
{
    if 0 <= i < s.len() && is_digit(s[i]) {
        1 + span_digits(s, i + 1)
    } else {
        0
    }
}

/// The number of ASCII hexadecimal digits from position `i` on.
pub open spec fn span_hex_digits(s: Seq<char>, i: int) -> nat
    decreases rem(s, i),
{
    if 0 <= i < s.len() && is_hex_digit(s[i]) {
        1 + span_hex_digits(s, i + 1)
    } else {
        0
    }
}

/// `t` with any spaces and tabs around it.
pub open spec fn ws_tag(s: Seq<char>, i: int, t: Seq<char>) -> Option<nat> {
    let a = span_spaces(s, i);
    match tag(s, i + a, t) {
        Some(k) => Some(a + k + span_spaces(s, i + a + k)),
        None => None,
    }
}

/// Characters that may not appear in a quoted path.
pub open spec fn path_stops() -> Seq<char> {
    seq!['"', ':', '*', '?', '<', '>', '|']
}

/// Characters that may not appear in a path that is not a regex: those of
/// `path_stops` and the backslash, which tells regexes apart.
pub open spec fn non_regex_path_stops() -> Seq<char> {
    seq!['"', ':', '*', '?', '<', '>', '|', '\\']
}

/// Characters that may not appear in a path whose last component is a regex.
pub open spec fn regex_path_stops() -> Seq<char> {
    seq!['"', '<', '>']
}

pub open spec fn quote() -> Seq<char> {
    seq!['"']
}

pub open spec fn comma() -> Seq<char> {
    seq![',']
}

/// Scans a path one character at a position, with the current component so
/// far and whether the last component kept was `..`: components are
/// separated by `/`, and empty and `.` components are skipped. The path
/// leaves the game directory where one `..` directly follows another.
pub open spec fn game_scan(p: Seq<char>, i: int, cur: Seq<char>, after_parent: bool) -> bool
    decreases rem(p, i),
{
    if 0 <= i < p.len() {
        if p[i] == '/' {
            if cur == Seq::<char>::empty() || cur == seq!['.'] {
                game_scan(p, i + 1, Seq::empty(), after_parent)
            } else if cur == seq!['.', '.'] {
                !after_parent && game_scan(p, i + 1, Seq::empty(), true)
            } else {
                game_scan(p, i + 1, Seq::empty(), false)
            }
        } else {
            game_scan(p, i + 1, cur.push(p[i]), after_parent)
        }
    } else {
        !(cur == seq!['.', '.'] && after_parent)
    }
}

/// Whether a path stays inside the game directory: it is not absolute, and
/// no `..` component directly follows another.
pub open spec fn in_game(p: Seq<char>) -> bool {
    !(p.len() > 0 && p[0] == '/') && game_scan(p, 0, Seq::empty(), false)
}

/// A path that is not a regex, ending at the first character of
/// `non_regex_path_stops`.
pub open spec fn non_regex_path(s: Seq<char>, i: int) -> Parsed<Seq<char>> {
    let n = span_not_in(s, i, non_regex_path_stops());
    if n == 0 {
        Parsed::Backtrack
    } else {
        let p = s.subrange(i, i + n);
        if in_game(p) {
            Parsed::Done(n, p)
        } else {
            Parsed::Fail(s.skip(i), KindView::PathIsNotInGameDirectory(p))
        }
    }
}

/// A path in double quotes.
pub open spec fn quoted_path(s: Seq<char>, i: int) -> Parsed<Seq<char>> {
    match tag(s, i, quote()) {
        None => Parsed::Backtrack,
        Some(a) => {
            let n = span_not_in(s, i + a, path_stops());
            if n == 0 {
                Parsed::Backtrack
            } else {
                match tag(s, i + a + n, quote()) {
                    None => Parsed::Backtrack,
                    Some(b) => {
                        let p = s.subrange(i + a, i + a + n);
                        if in_game(p) {
                            Parsed::Done(a + n + b, p)
                        } else {
                            Parsed::Fail(s.skip(i), KindView::PathIsNotInGameDirectory(p))
                        }
                    },
                }
            }
        },
    }
}

/// The position of the last `/` in a string, if any.
pub open spec fn last_slash(t: Seq<char>) -> Option<int>
    decreases t.len(),
{
    if t.len() == 0 {
        None
    } else if t.last() == '/' {
        Some(t.len() - 1)
    } else {
        last_slash(t.drop_last())
    }
}

/// A regex pattern that has to match a whole file name.
pub open spec fn anchored(re: Seq<char>) -> Seq<char> {
    seq!['^'] + re + seq!['$']
}

/// Why a pattern does not compile as a case-insensitive regex, if it does
/// not.
pub open spec fn regex_problem(pattern: Seq<char>) -> Option<KindView> {
    match regex_build_outcome(pattern, true) {
        Ok(_) => None,
        Err(Some(m)) => Some(KindView::InvalidRegexSyntax(m)),
        Err(None) => Some(KindView::InvalidRegexUnknown),
    }
}

/// A path whose last component is a regex: the parent path (`.` where there
/// is none) and the regex anchored to match whole file names.
pub open spec fn regex_path(s: Seq<char>, i: int) -> Parsed<(Seq<char>, Seq<char>)> {
    let n = span_not_in(s, i, regex_path_stops());
    if n == 0 {
        Parsed::Backtrack
    } else {
        let t = s.subrange(i, i + n);
        if t.last() == '/' {
            Parsed::Fail(s.skip(i), KindView::PathEndsInADirectorySeparator(t))
        } else {
            let parent = match last_slash(t) {
                Some(k) => t.take(k),
                None => seq!['.'],
            };
            let re = match last_slash(t) {
                Some(k) => t.skip(k + 1),
                None => t,
            };
            if !in_game(parent) {
                Parsed::Fail(s.skip(i), KindView::PathIsNotInGameDirectory(parent))
            } else {
                match regex_problem(anchored(re)) {
                    Some(k) => Parsed::Fail(re, k),
                    None => Parsed::Done(n, (parent, anchored(re))),
                }
            }
        }
    }
}

/// A regex that has to match a whole file name.
pub open spec fn regex_filename(s: Seq<char>, i: int) -> Parsed<Seq<char>> {
    let n = span_not_in(s, i, regex_path_stops());
    if n == 0 {
        Parsed::Backtrack
    } else {
        let t = s.subrange(i, i + n);
        match regex_problem(anchored(t)) {
            Some(k) => Parsed::Fail(t, k),
            None => Parsed::Done(n, anchored(t)),
        }
    }
}

/// The arguments of `file_size`: a quoted path, a comma and a decimal size.
pub open spec fn file_size_args(s: Seq<char>, i: int) -> Parsed<(Seq<char>, u64)> {
    match quoted_path(s, i) {
        Parsed::Done(a, p) => match ws_tag(s, i + a, comma()) {
            None => Parsed::Backtrack,
            Some(b) => {
                let n = span_digits(s, i + a + b);
                if n == 0 {
                    Parsed::Backtrack
                } else {
                    let d = s.subrange(i + a + b, i + a + b + n);
                    if digits_value(d, 10) > u64::MAX {
                        Parsed::Fail(d, KindView::InvalidCrc(IntErrorKind::PosOverflow))
                    } else {
                        Parsed::Done(a + b + n, (p, digits_value(d, 10) as u64))
                    }
                }
            },
        },
        Parsed::Backtrack => Parsed::Backtrack,
        Parsed::Fail(x, k) => Parsed::Fail(x, k),
    }
}

/// A version string in double quotes.
pub open spec fn version_string(s: Seq<char>, i: int) -> Parsed<Seq<char>> {
    match tag(s, i, quote()) {
        None => Parsed::Backtrack,
        Some(a) => {
            let n = span_not_in(s, i + a, quote());
            if n == 0 {
                Parsed::Backtrack
            } else {
                match tag(s, i + a + n, quote()) {
                    None => Parsed::Backtrack,
                    Some(b) => Parsed::Done(a + n + b, s.subrange(i + a, i + a + n)),
                }
            }
        },
    }
}

/// A comparison operator; the two-character operators are tried before the
/// one-character ones.
pub open spec fn comparison_operator(s: Seq<char>, i: int) -> Parsed<ComparisonOperator> {
    if tag(s, i, "=="@) is Some {
        Parsed::Done(tag(s, i, "=="@)->0, ComparisonOperator::Equal)
    } else if tag(s, i, "!="@) is Some {
        Parsed::Done(tag(s, i, "!="@)->0, ComparisonOperator::NotEqual)
    } else if tag(s, i, "<="@) is Some {
        Parsed::Done(tag(s, i, "<="@)->0, ComparisonOperator::LessThanOrEqual)
    } else if tag(s, i, ">="@) is Some {
        Parsed::Done(tag(s, i, ">="@)->0, ComparisonOperator::GreaterThanOrEqual)
    } else if tag(s, i, "<"@) is Some {
        Parsed::Done(tag(s, i, "<"@)->0, ComparisonOperator::LessThan)
    } else if tag(s, i, ">"@) is Some {
        Parsed::Done(tag(s, i, ">"@)->0, ComparisonOperator::GreaterThan)
    } else {
        Parsed::Backtrack
    }
}

/// The arguments of `version` and `product_version`: a quoted path, a comma,
/// a quoted version, a comma and a comparison operator.
pub open spec fn version_args(s: Seq<char>, i: int) -> Parsed<
    (Seq<char>, Seq<char>, ComparisonOperator),
> {
    match quoted_path(s, i) {
        Parsed::Done(a, p) => match ws_tag(s, i + a, comma()) {
            None => Parsed::Backtrack,
            Some(b) => match version_string(s, i + a + b) {
                Parsed::Done(c, v) => match ws_tag(s, i + a + b + c, comma()) {
                    None => Parsed::Backtrack,
                    Some(d) => match comparison_operator(s, i + a + b + c + d) {
                        Parsed::Done(e, op) => Parsed::Done(a + b + c + d + e, (p, v, op)),
                        _ => Parsed::Backtrack,
                    },
                },
                _ => Parsed::Backtrack,
            },
        },
        Parsed::Backtrack => Parsed::Backtrack,
        Parsed::Fail(x, k) => Parsed::Fail(x, k),
    }
}

/// The arguments of `filename_version`: a quoted path whose last component is
/// a regex with exactly one capture group, a comma, a quoted version, a comma
/// and a comparison operator.
pub open spec fn filename_version_args(s: Seq<char>, i: int) -> Parsed<
    (Seq<char>, Seq<char>, Seq<char>, ComparisonOperator),
> {
    match tag(s, i, quote()) {
        None => Parsed::Backtrack,
        Some(a) => match regex_path(s, i + a) {
            Parsed::Done(b, pr) => match tag(s, i + a + b, quote()) {
                None => Parsed::Backtrack,
                Some(c) => match ws_tag(s, i + a + b + c, comma()) {
                    None => Parsed::Backtrack,
                    Some(d) => match version_string(s, i + a + b + c + d) {
                        Parsed::Done(e, v) => match ws_tag(s, i + a + b + c + d + e, comma()) {
                            None => Parsed::Backtrack,
                            Some(f) => match comparison_operator(s, i + a + b + c + d + e + f) {
                                Parsed::Done(g, op) => if regex_captures_len(pr.1, true) != 2 {
                                    Parsed::Fail(s.skip(i), KindView::InvalidRegexUnknown)
                                } else {
                                    Parsed::Done(a + b + c + d + e + f + g, (pr.0, pr.1, v, op))
                                },
                                _ => Parsed::Backtrack,
                            },
                        },
                        _ => Parsed::Backtrack,
                    },
                },
            },
            Parsed::Backtrack => Parsed::Backtrack,
            Parsed::Fail(x, k) => Parsed::Fail(x, k),
        },
    }
}

/// The arguments of `description_contains`: a quoted path, a comma and a
/// quoted regex.
pub open spec fn description_contains_args(s: Seq<char>, i: int) -> Parsed<
    (Seq<char>, Seq<char>),
> {
    match quoted_path(s, i) {
        Parsed::Done(a, p) => match ws_tag(s, i + a, comma()) {
            None => Parsed::Backtrack,
            Some(b) => match tag(s, i + a + b, quote()) {
                None => Parsed::Backtrack,
                Some(c) => {
                    let n = span_not_in(s, i + a + b + c, quote());
                    if n == 0 {
                        Parsed::Backtrack
                    } else {
                        let t = s.subrange(i + a + b + c, i + a + b + c + n);
                        match regex_problem(t) {
                            Some(k) => Parsed::Fail(t, k),
                            None => match tag(s, i + a + b + c + n, quote()) {
                                None => Parsed::Backtrack,
                                Some(d) => Parsed::Done(a + b + c + n + d, (p, t)),
                            },
                        }
                    }
                },
            },
        },
        Parsed::Backtrack => Parsed::Backtrack,
        Parsed::Fail(x, k) => Parsed::Fail(x, k),
    }
}

/// The arguments of `checksum`: a quoted path, a comma and a hexadecimal CRC.
pub open spec fn checksum_args(s: Seq<char>, i: int) -> Parsed<(Seq<char>, u32)> {
    match quoted_path(s, i) {
        Parsed::Done(a, p) => match ws_tag(s, i + a, comma()) {
            None => Parsed::Backtrack,
            Some(b) => {
                let n = span_hex_digits(s, i + a + b);
                if n == 0 {
                    Parsed::Backtrack
                } else {
                    let h = s.subrange(i + a + b, i + a + b + n);
                    if digits_value(h, 16) > u32::MAX {
                        Parsed::Fail(h, KindView::InvalidCrc(IntErrorKind::PosOverflow))
                    } else {
                        Parsed::Done(a + b + n, (p, digits_value(h, 16) as u32))
                    }
                }
            },
        },
        Parsed::Backtrack => Parsed::Backtrack,
        Parsed::Fail(x, k) => Parsed::Fail(x, k),
    }
}

/// `inner`, applied after `prefix` and followed by `suffix`.
pub open spec fn framed<T>(
    s: Seq<char>,
    i: int,
    prefix: Seq<char>,
    inner: spec_fn(int) -> Parsed<T>,
    suffix: Seq<char>,
) -> Parsed<T> {
    match tag(s, i, prefix) {
        None => Parsed::Backtrack,
        Some(a) => match inner(i + a) {
            Parsed::Done(n, v) => match tag(s, i + a + n, suffix) {
                None => Parsed::Backtrack,
                Some(b) => Parsed::Done(a + n + b, v),
            },
            Parsed::Backtrack => Parsed::Backtrack,
            Parsed::Fail(x, k) => Parsed::Fail(x, k),
        },
    }
}

/// A function written as `name("path")` with a path that is not a regex.
pub open spec fn framed_path(s: Seq<char>, i: int, prefix: Seq<char>) -> Parsed<Seq<char>> {
    framed(s, i, prefix, |j: int| non_regex_path(s, j), "\")"@)
}

/// A function written as `name("path/regex")`.
pub open spec fn framed_regex_path(s: Seq<char>, i: int, prefix: Seq<char>) -> Parsed<
    (Seq<char>, Seq<char>),
> {
    framed(s, i, prefix, |j: int| regex_path(s, j), "\")"@)
}

/// A function written as `name("regex")`.
pub open spec fn framed_regex_filename(s: Seq<char>, i: int, prefix: Seq<char>) -> Parsed<
    Seq<char>,
> {
    framed(s, i, prefix, |j: int| regex_filename(s, j), "\")"@)
}

/// A function written as `name("path", "version", operator)`.
pub open spec fn framed_version(s: Seq<char>, i: int, prefix: Seq<char>) -> Parsed<
    (Seq<char>, Seq<char>, ComparisonOperator),
> {
    framed(s, i, prefix, |j: int| version_args(s, j), ")"@)
}

/// A function, as written in a condition string. The alternatives are tried
/// in order, so a `file` or `active` path without regex characters is read as
/// a plain path.
#[verifier::opaque]
pub open spec fn function(s: Seq<char>, i: int) -> Parsed<FunctionView> {
    or_else(
        map_value(framed_path(s, i, "file(\""@), |p: Seq<char>| FunctionView::FilePath(p)),
        or_else(
            map_value(
                framed_regex_path(s, i, "file(\""@),
                |pr: (Seq<char>, Seq<char>)| FunctionView::FileRegex(pr.0, pr.1),
            ),
            or_else(
                map_value(
                    framed(s, i, "file_size("@, |j: int| file_size_args(s, j), ")"@),
                    |a: (Seq<char>, u64)| FunctionView::FileSize(a.0, a.1),
                ),
                or_else(
                    map_value(
                        framed_path(s, i, "readable(\""@),
                        |p: Seq<char>| FunctionView::Readable(p),
                    ),
                    or_else(
                        map_value(
                            framed_path(s, i, "is_executable(\""@),
                            |p: Seq<char>| FunctionView::IsExecutable(p),
                        ),
                        or_else(
                            map_value(
                                framed_path(s, i, "active(\""@),
                                |p: Seq<char>| FunctionView::ActivePath(p),
                            ),
                            or_else(
                                map_value(
                                    framed_regex_filename(s, i, "active(\""@),
                                    |r: Seq<char>| FunctionView::ActiveRegex(r),
                                ),
                                function_tail(s, i),
                            ),
                        ),
                    ),
                ),
            ),
        ),
    )
}

/// The alternatives of `function` from `is_master` on.
#[verifier::opaque]
pub open spec fn function_tail(s: Seq<char>, i: int) -> Parsed<FunctionView> {
    or_else(
        map_value(framed_path(s, i, "is_master(\""@), |p: Seq<char>| FunctionView::IsMaster(p)),
        or_else(
            map_value(
                framed_regex_path(s, i, "many(\""@),
                |pr: (Seq<char>, Seq<char>)| FunctionView::Many(pr.0, pr.1),
            ),
            or_else(
                map_value(
                    framed_regex_filename(s, i, "many_active(\""@),
                    |r: Seq<char>| FunctionView::ManyActive(r),
                ),
                or_else(
                    map_value(
                        framed_version(s, i, "version("@),
                        |a: (Seq<char>, Seq<char>, ComparisonOperator)|
                            FunctionView::Version(a.0, a.1, a.2),
                    ),
                    or_else(
                        map_value(
                            framed_version(s, i, "product_version("@),
                            |a: (Seq<char>, Seq<char>, ComparisonOperator)|
                                FunctionView::ProductVersion(a.0, a.1, a.2),
                        ),
                        or_else(
                            map_value(
                                framed(
                                    s,
                                    i,
                                    "filename_version("@,
                                    |j: int| filename_version_args(s, j),
                                    ")"@,
                                ),
                                |a: (Seq<char>, Seq<char>, Seq<char>, ComparisonOperator)|
                                    FunctionView::FilenameVersion(a.0, a.1, a.2, a.3),
                            ),
                            or_else(
                                map_value(
                                    framed(s, i, "checksum("@, |j: int| checksum_args(s, j), ")"@),
                                    |a: (Seq<char>, u32)| FunctionView::Checksum(a.0, a.1),
                                ),
                                map_value(
                                    framed(
                                        s,
                                        i,
                                        "description_contains("@,
                                        |j: int| description_contains_args(s, j),
                                        ")"@,
                                    ),
                                    |a: (Seq<char>, Seq<char>)|
                                        FunctionView::DescriptionContains(a.0, a.1),
                                ),
                            ),
                        ),
                    ),
                ),
            ),
        ),
    )
}


/// The number of characters that `t` takes up at position `i`, where the
/// input continues with `t` there.
pub fn tag_chars(s: &[char], i: usize, t: &[char]) -> (r: Option<usize>)
    requires
        i <= s.len(),
    ensures
        match r {
            Some(n) => tag(s@, i as int, t@) == Some(n as nat) && i + n <= s.len(),
            None => tag(s@, i as int, t@) is None,
        },
{
    if t.len() > s.len() - i {
        return None;
    }
    let mut k: usize = 0;
    while k < t.len()
        invariant
            i + t.len() <= s.len(),
            k <= t.len(),
            forall|m: int| 0 <= m < k ==> s@[i + m] == t@[m],
        decreases t.len() - k,
    {
        if s[i + k] != t[k] {
            assert(s@.subrange(i as int, i + t.len())[k as int] != t@[k as int]);
            return None;
        }
        k = k + 1;
    }
    assert(s@.subrange(i as int, i + t.len()) =~= t@);
    Some(t.len())
}

/// `tag_chars` with a single character.
pub fn tag_char(s: &[char], i: usize, c: char) -> (r: Option<usize>)
    requires
        i <= s.len(),
    ensures
        match r {
            Some(n) => tag(s@, i as int, seq![c]) == Some(n as nat) && i + n <= s.len() && n == 1,
            None => tag(s@, i as int, seq![c]) is None,
        },
{
    if i < s.len() && s[i] == c {
        assert(s@.subrange(i as int, i + 1) =~= seq![c]);
        Some(1)
    } else {
        proof {
            if i < s.len() {
                assert(s@.subrange(i as int, i + 1)[0] != seq![c][0]);
            }
        }
        None
    }
}

/// `ws_tag_chars` with a single character.
pub fn ws_tag_char(s: &[char], i: usize, c: char) -> (r: Option<usize>)
    requires
        i <= s.len(),
    ensures
        match r {
            Some(n) => ws_tag(s@, i as int, seq![c]) == Some(n as nat) && i + n <= s.len(),
            None => ws_tag(s@, i as int, seq![c]) is None,
        },
{
    let a = span_spaces_exec(s, i);
    match tag_char(s, i + a, c) {
        Some(k) => {
            let b = span_spaces_exec(s, i + a + k);
            Some(a + k + b)
        },
        None => None,
    }
}

/// `tag_chars` with the characters of a string slice.
pub fn tag_str(s: &[char], i: usize, t: &str) -> (r: Option<usize>)
    requires
        i <= s.len(),
    ensures
        match r {
            Some(n) => tag(s@, i as int, t@) == Some(n as nat) && i + n <= s.len(),
            None => tag(s@, i as int, t@) is None,
        },
{
    let tc = chars_of(t);
    tag_chars(s, i, tc.as_slice())
}

fn contains_char(set: &[char], c: char) -> (r: bool)
    ensures
        r == set@.contains(c),
{
    let mut k: usize = 0;
    while k < set.len()
        invariant
            k <= set.len(),
            forall|m: int| 0 <= m < k ==> set@[m] != c,
        decreases set.len() - k,
    {
        if set[k] == c {
            return true;
        }
        k = k + 1;
    }
    false
}

/// The number of characters from position `i` on that are not in `set`.
pub fn span_not_in_exec(s: &[char], i: usize, set: &[char]) -> (n: usize)
    requires
        i <= s.len(),
    ensures
        n == span_not_in(s@, i as int, set@),
        i + n <= s.len(),
{
    let mut j: usize = i;
    while j < s.len() && !contains_char(set, s[j])
        invariant
            i <= j <= s.len(),
            span_not_in(s@, i as int, set@) == (j - i) + span_not_in(s@, j as int, set@),
        decreases s.len() - j,
    {
        j = j + 1;
    }
    j - i
}

/// The number of spaces and tabs from position `i` on.
pub fn span_spaces_exec(s: &[char], i: usize) -> (n: usize)
    requires
        i <= s.len(),
    ensures
        n == span_spaces(s@, i as int),
        i + n <= s.len(),
{
    let mut j: usize = i;
    while j < s.len() && (s[j] == ' ' || s[j] == '\t')
        invariant
            i <= j <= s.len(),
            span_spaces(s@, i as int) == (j - i) + span_spaces(s@, j as int),
        decreases s.len() - j,
    {
        j = j + 1;
    }
    j - i
}

/// The number of ASCII digits from position `i` on.
pub fn span_digits_exec(s: &[char], i: usize) -> (n: usize)
    requires
        i <= s.len(),
    ensures
        n == span_digits(s@, i as int),
        i + n <= s.len(),
{
    let mut j: usize = i;
    while j < s.len() && ('0' <= s[j] && s[j] <= '9')
        invariant
            i <= j <= s.len(),
            span_digits(s@, i as int) == (j - i) + span_digits(s@, j as int),
        decreases s.len() - j,
    {
        j = j + 1;
    }
    j - i
}

/// The number of ASCII hexadecimal digits from position `i` on.
pub fn span_hex_digits_exec(s: &[char], i: usize) -> (n: usize)
    requires
        i <= s.len(),
    ensures
        n == span_hex_digits(s@, i as int),
        i + n <= s.len(),
{
    let mut j: usize = i;
    while j < s.len() && (('0' <= s[j] && s[j] <= '9') || ('a' <= s[j] && s[j] <= 'f') || ('A'
        <= s[j] && s[j] <= 'F'))
        invariant
            i <= j <= s.len(),
            span_hex_digits(s@, i as int) == (j - i) + span_hex_digits(s@, j as int),
        decreases s.len() - j,
    {
        j = j + 1;
    }
    j - i
}

/// `t` with any spaces and tabs around it.
pub fn ws_tag_chars(s: &[char], i: usize, t: &[char]) -> (r: Option<usize>)
    requires
        i <= s.len(),
    ensures
        match r {
            Some(n) => ws_tag(s@, i as int, t@) == Some(n as nat) && i + n <= s.len(),
            None => ws_tag(s@, i as int, t@) is None,
        },
{
    let a = span_spaces_exec(s, i);
    match tag_chars(s, i + a, t) {
        Some(k) => {
            let b = span_spaces_exec(s, i + a + k);
            Some(a + k + b)
        },
        None => None,
    }
}

fn is_dots(cur: &Vec<char>, n: usize) -> (r: bool)
    requires
        n <= 2,
    ensures
        n == 0 ==> r == (cur@ == Seq::<char>::empty()),
        n == 1 ==> r == (cur@ == seq!['.']),
        n == 2 ==> r == (cur@ == seq!['.', '.']),
{
    if cur.len() != n {
        proof {
            if n == 0 {
                assert(cur@.len() != Seq::<char>::empty().len());
            } else if n == 1 {
                assert(cur@.len() != seq!['.'].len());
            } else {
                assert(cur@.len() != seq!['.', '.'].len());
            }
        }
        return false;
    }
    let mut k: usize = 0;
    while k < n
        invariant
            cur.len() == n,
            n <= 2,
            k <= n,
            forall|m: int| 0 <= m < k ==> cur@[m] == '.',
        decreases n - k,
    {
        if cur[k] != '.' {
            proof {
                if n == 1 {
                    assert(cur@[k as int] != seq!['.'][k as int]);
                } else {
                    assert(cur@[k as int] != seq!['.', '.'][k as int]);
                }
            }
            return false;
        }
        k = k + 1;
    }
    proof {
        if n == 0 {
            assert(cur@ =~= Seq::<char>::empty());
        } else if n == 1 {
            assert(cur@ =~= seq!['.']);
        } else {
            assert(cur@ =~= seq!['.', '.']);
        }
    }
    true
}

/// Whether a path stays inside the game directory.
pub fn is_in_game(p: &[char]) -> (r: bool)
    ensures
        r == in_game(p@),
{
    if p.len() > 0 && p[0] == '/' {
        return false;
    }
    let mut cur: Vec<char> = Vec::new();
    let mut after_parent = false;
    let mut i: usize = 0;
    while i < p.len()
        invariant
            i <= p.len(),
            game_scan(p@, 0, Seq::empty(), false) == game_scan(p@, i as int, cur@, after_parent),
        decreases p.len() - i,
    {
        if p[i] == '/' {
            if is_dots(&cur, 0) || is_dots(&cur, 1) {
            } else if is_dots(&cur, 2) {
                if after_parent {
                    return false;
                }
                after_parent = true;
            } else {
                after_parent = false;
            }
            cur = Vec::new();
        } else {
            cur.push(p[i]);
        }
        i = i + 1;
    }
    !(is_dots(&cur, 2) && after_parent)
}

/// A path that is not a regex.
pub fn parse_non_regex_path(s: &[char], i: usize) -> (r: Outcome<String>)
    requires
        i <= s.len(),
    ensures
        r@ == non_regex_path(s@, i as int),
        within(r, s@, i as int),
{
    let n = span_not_in_exec(s, i, &['"', ':', '*', '?', '<', '>', '|', '\\']);
    if n == 0 {
        return Outcome::Backtrack;
    }
    let p = &s[i..i + n];
    if is_in_game(p) {
        Outcome::Done(n, string_of(p))
    } else {
        let rest = string_of(&s[i..s.len()]);
        let kind = ParsingErrorKind::PathIsNotInGameDirectory(string_of(p));
        proof {
            assert(s@.subrange(i as int, s.len() as int) == s@.skip(i as int));
        }
        Outcome::Fail(kind.at(rest.as_str()))
    }
}

/// A path in double quotes.
pub fn parse_quoted_path(s: &[char], i: usize) -> (r: Outcome<String>)
    requires
        i <= s.len(),
    ensures
        r@ == quoted_path(s@, i as int),
        within(r, s@, i as int),
{
    let a = match tag_char(s, i, '"') {
        Some(a) => a,
        None => return Outcome::Backtrack,
    };
    let n = span_not_in_exec(s, i + a, &['"', ':', '*', '?', '<', '>', '|']);
    if n == 0 {
        return Outcome::Backtrack;
    }
    let b = match tag_char(s, i + a + n, '"') {
        Some(b) => b,
        None => return Outcome::Backtrack,
    };
    let p = &s[i + a..i + a + n];
    if is_in_game(p) {
        Outcome::Done(a + n + b, string_of(p))
    } else {
        let rest = string_of(&s[i..s.len()]);
        let kind = ParsingErrorKind::PathIsNotInGameDirectory(string_of(p));
        proof {
            assert(s@.subrange(i as int, s.len() as int) == s@.skip(i as int));
        }
        Outcome::Fail(kind.at(rest.as_str()))
    }
}

fn find_last_slash(t: &[char]) -> (r: Option<usize>)
    ensures
        match r {
            Some(k) => last_slash(t@) == Some(k as int) && k < t.len(),
            None => last_slash(t@) is None,
        },
{
    let mut j: usize = t.len();
    assert(t@.take(t.len() as int) == t@);
    while j > 0
        invariant
            j <= t.len(),
            last_slash(t@) == last_slash(t@.take(j as int)),
        decreases j,
    {
        assert(t@.take(j as int).drop_last() == t@.take(j - 1));
        if t[j - 1] == '/' {
            return Some(j - 1);
        }
        j = j - 1;
    }
    None
}

/// A regex pattern anchored to match a whole file name.
fn anchored_pattern(re: &[char]) -> (r: String)
    ensures
        r@ == anchored(re@),
{
    let mut r = String::new();
    push_char(&mut r, '^');
    push_chars(&mut r, re);
    push_char(&mut r, '$');
    r
}

/// The failure of a pattern that does not compile, found at `at`.
fn regex_failure(e: Option<String>, at: &[char]) -> (r: ParsingError)
    ensures
        r.spec_input() == at@,
        r.spec_kind() == match e {
            Some(m) => KindView::InvalidRegexSyntax(m@),
            None => KindView::InvalidRegexUnknown,
        },
{
    let input = string_of(at);
    let kind = match e {
        Some(m) => ParsingErrorKind::InvalidRegexSyntax(m),
        None => ParsingErrorKind::InvalidRegexUnknown,
    };
    kind.at(input.as_str())
}

/// A path whose last component is a regex.
pub fn parse_regex_path(s: &[char], i: usize) -> (r: Outcome<(String, Regex)>)
    requires
        i <= s.len(),
    ensures
        r@ == regex_path(s@, i as int),
        within(r, s@, i as int),
{
    let n = span_not_in_exec(s, i, &['"', '<', '>']);
    if n == 0 {
        return Outcome::Backtrack;
    }
    let t = &s[i..i + n];
    if t[n - 1] == '/' {
        let rest = string_of(&s[i..s.len()]);
        let kind = ParsingErrorKind::PathEndsInADirectorySeparator(string_of(t));
        proof {
            assert(s@.subrange(i as int, s.len() as int) == s@.skip(i as int));
        }
        return Outcome::Fail(kind.at(rest.as_str()));
    }
    let slash = find_last_slash(t);
    let parent: Vec<char> = match slash {
        Some(k) => vstd::slice::slice_to_vec(&t[0..k]),
        None => vec!['.'],
    };
    let re: &[char] = match slash {
        Some(k) => &t[k + 1..n],
        None => t,
    };
    proof {
        match slash {
            Some(k) => {
                assert(t@.subrange(0, k as int) == t@.take(k as int));
                assert(t@.subrange(k + 1, n as int) == t@.skip(k + 1));
            },
            None => {
                assert(parent@ =~= seq!['.']);
            },
        }
    }
    if !is_in_game(parent.as_slice()) {
        let rest = string_of(&s[i..s.len()]);
        let kind = ParsingErrorKind::PathIsNotInGameDirectory(string_of(parent.as_slice()));
        proof {
            assert(s@.subrange(i as int, s.len() as int) == s@.skip(i as int));
        }
        return Outcome::Fail(kind.at(rest.as_str()));
    }
    let pattern = anchored_pattern(re);
    match Regex::new(pattern.as_str()) {
        Ok(regex) => Outcome::Done(n, (string_of(parent.as_slice()), regex)),
        Err(e) => Outcome::Fail(regex_failure(e, re)),
    }
}

/// A regex that has to match a whole file name.
pub fn parse_regex_filename(s: &[char], i: usize) -> (r: Outcome<Regex>)
    requires
        i <= s.len(),
    ensures
        r@ == regex_filename(s@, i as int),
        within(r, s@, i as int),
{
    let n = span_not_in_exec(s, i, &['"', '<', '>']);
    if n == 0 {
        return Outcome::Backtrack;
    }
    let t = &s[i..i + n];
    let pattern = anchored_pattern(t);
    match Regex::new(pattern.as_str()) {
        Ok(regex) => Outcome::Done(n, regex),
        Err(e) => Outcome::Fail(regex_failure(e, t)),
    }
}

/// The arguments of `file_size`.
pub fn parse_file_size_args(s: &[char], i: usize) -> (r: Outcome<(String, u64)>)
    requires
        i <= s.len(),
    ensures
        r@ == file_size_args(s@, i as int),
        within(r, s@, i as int),
{
    let (a, p) = match parse_quoted_path(s, i) {
        Outcome::Done(a, p) => (a, p),
        Outcome::Backtrack => return Outcome::Backtrack,
        Outcome::Fail(e) => return Outcome::Fail(e),
    };
    let b = match ws_tag_char(s, i + a, ',') {
        Some(b) => b,
        None => return Outcome::Backtrack,
    };
    let n = span_digits_exec(s, i + a + b);
    if n == 0 {
        return Outcome::Backtrack;
    }
    let d = &s[i + a + b..i + a + b + n];
    match digits_value_up_to(d, 10, 0xFFFF_FFFF_FFFF_FFFF) {
        Some(v) => Outcome::Done(a + b + n, (p, v)),
        None => {
            let input = string_of(d);
            Outcome::Fail(
                ParsingErrorKind::InvalidCrc(IntErrorKind::PosOverflow).at(input.as_str()),
            )
        },
    }
}

/// A version string in double quotes.
pub fn parse_version_string(s: &[char], i: usize) -> (r: Outcome<String>)
    requires
        i <= s.len(),
    ensures
        r@ == version_string(s@, i as int),
        within(r, s@, i as int),
{
    let a = match tag_char(s, i, '"') {
        Some(a) => a,
        None => return Outcome::Backtrack,
    };
    let q = ['"'];
    assert(q@ =~= quote());
    let n = span_not_in_exec(s, i + a, &q);
    if n == 0 {
        return Outcome::Backtrack;
    }
    match tag_char(s, i + a + n, '"') {
        Some(b) => Outcome::Done(a + n + b, string_of(&s[i + a..i + a + n])),
        None => Outcome::Backtrack,
    }
}

impl ComparisonOperator {
    /// A comparison operator at position `i`.
    pub fn parse(s: &[char], i: usize) -> (r: Outcome<ComparisonOperator>)
        requires
            i <= s.len(),
        ensures
            r@ == comparison_operator(s@, i as int),
            within(r, s@, i as int),
    {
        if let Some(n) = tag_str(s, i, "==") {
            Outcome::Done(n, ComparisonOperator::Equal)
        } else if let Some(n) = tag_str(s, i, "!=") {
            Outcome::Done(n, ComparisonOperator::NotEqual)
        } else if let Some(n) = tag_str(s, i, "<=") {
            Outcome::Done(n, ComparisonOperator::LessThanOrEqual)
        } else if let Some(n) = tag_str(s, i, ">=") {
            Outcome::Done(n, ComparisonOperator::GreaterThanOrEqual)
        } else if let Some(n) = tag_str(s, i, "<") {
            Outcome::Done(n, ComparisonOperator::LessThan)
        } else if let Some(n) = tag_str(s, i, ">") {
            Outcome::Done(n, ComparisonOperator::GreaterThan)
        } else {
            Outcome::Backtrack
        }
    }
}

/// The arguments of `version` and `product_version`.
pub fn parse_version_args(s: &[char], i: usize) -> (r: Outcome<(String, String, ComparisonOperator)>)
    requires
        i <= s.len(),
    ensures
        r@ == version_args(s@, i as int),
        within(r, s@, i as int),
{
    let (a, p) = match parse_quoted_path(s, i) {
        Outcome::Done(a, p) => (a, p),
        Outcome::Backtrack => return Outcome::Backtrack,
        Outcome::Fail(e) => return Outcome::Fail(e),
    };
    let b = match ws_tag_char(s, i + a, ',') {
        Some(b) => b,
        None => return Outcome::Backtrack,
    };
    let (c, v) = match parse_version_string(s, i + a + b) {
        Outcome::Done(c, v) => (c, v),
        _ => return Outcome::Backtrack,
    };
    let d = match ws_tag_char(s, i + a + b + c, ',') {
        Some(d) => d,
        None => return Outcome::Backtrack,
    };
    match ComparisonOperator::parse(s, i + a + b + c + d) {
        Outcome::Done(e, op) => Outcome::Done(a + b + c + d + e, (p, v, op)),
        _ => Outcome::Backtrack,
    }
}

/// The arguments of `filename_version`.
pub fn parse_filename_version_args(s: &[char], i: usize) -> (r: Outcome<
    (String, Regex, String, ComparisonOperator),
>)
    requires
        i <= s.len(),
    ensures
        r@ == filename_version_args(s@, i as int),
        within(r, s@, i as int),
{
    let a = match tag_char(s, i, '"') {
        Some(a) => a,
        None => return Outcome::Backtrack,
    };
    let (b, (p, re)) = match parse_regex_path(s, i + a) {
        Outcome::Done(b, pr) => (b, pr),
        Outcome::Backtrack => return Outcome::Backtrack,
        Outcome::Fail(e) => return Outcome::Fail(e),
    };
    let c = match tag_char(s, i + a + b, '"') {
        Some(c) => c,
        None => return Outcome::Backtrack,
    };
    let d = match ws_tag_char(s, i + a + b + c, ',') {
        Some(d) => d,
        None => return Outcome::Backtrack,
    };
    let (e, v) = match parse_version_string(s, i + a + b + c + d) {
        Outcome::Done(e, v) => (e, v),
        _ => return Outcome::Backtrack,
    };
    let f = match ws_tag_char(s, i + a + b + c + d + e, ',') {
        Some(f) => f,
        None => return Outcome::Backtrack,
    };
    let (g, op) = match ComparisonOperator::parse(s, i + a + b + c + d + e + f) {
        Outcome::Done(g, op) => (g, op),
        _ => return Outcome::Backtrack,
    };
    if re.captures_len() != 2 {
        let rest = string_of(&s[i..s.len()]);
        proof {
            assert(s@.subrange(i as int, s.len() as int) == s@.skip(i as int));
        }
        return Outcome::Fail(ParsingErrorKind::InvalidRegexUnknown.at(rest.as_str()));
    }
    Outcome::Done(a + b + c + d + e + f + g, (p, re, v, op))
}

/// The arguments of `description_contains`.
pub fn parse_description_contains_args(s: &[char], i: usize) -> (r: Outcome<(String, Regex)>)
    requires
        i <= s.len(),
    ensures
        r@ == description_contains_args(s@, i as int),
        within(r, s@, i as int),
{
    let (a, p) = match parse_quoted_path(s, i) {
        Outcome::Done(a, p) => (a, p),
        Outcome::Backtrack => return Outcome::Backtrack,
        Outcome::Fail(e) => return Outcome::Fail(e),
    };
    let b = match ws_tag_char(s, i + a, ',') {
        Some(b) => b,
        None => return Outcome::Backtrack,
    };
    let c = match tag_char(s, i + a + b, '"') {
        Some(c) => c,
        None => return Outcome::Backtrack,
    };
    let q = ['"'];
    assert(q@ =~= quote());
    let n = span_not_in_exec(s, i + a + b + c, &q);
    if n == 0 {
        return Outcome::Backtrack;
    }
    let t = &s[i + a + b + c..i + a + b + c + n];
    let pattern = string_of(t);
    let regex = match Regex::new(pattern.as_str()) {
        Ok(regex) => regex,
        Err(e) => return Outcome::Fail(regex_failure(e, t)),
    };
    match tag_char(s, i + a + b + c + n, '"') {
        Some(d) => Outcome::Done(a + b + c + n + d, (p, regex)),
        None => Outcome::Backtrack,
    }
}

/// The arguments of `checksum`.
pub fn parse_checksum_args(s: &[char], i: usize) -> (r: Outcome<(String, u32)>)
    requires
        i <= s.len(),
    ensures
        r@ == checksum_args(s@, i as int),
        within(r, s@, i as int),
{
    let (a, p) = match parse_quoted_path(s, i) {
        Outcome::Done(a, p) => (a, p),
        Outcome::Backtrack => return Outcome::Backtrack,
        Outcome::Fail(e) => return Outcome::Fail(e),
    };
    let b = match ws_tag_char(s, i + a, ',') {
        Some(b) => b,
        None => return Outcome::Backtrack,
    };
    let n = span_hex_digits_exec(s, i + a + b);
    if n == 0 {
        return Outcome::Backtrack;
    }
    let h = &s[i + a + b..i + a + b + n];
    match digits_value_up_to(h, 16, 0xFFFF_FFFF) {
        Some(v) => Outcome::Done(a + b + n, (p, v as u32)),
        None => {
            let input = string_of(h);
            Outcome::Fail(
                ParsingErrorKind::InvalidCrc(IntErrorKind::PosOverflow).at(input.as_str()),
            )
        },
    }
}


/// `non_regex_path` after `prefix` and followed by `")`.
fn parse_framed_path(s: &[char], i: usize, prefix: &str) -> (r: Outcome<String>)
    requires
        i <= s.len(),
    ensures
        r@ == framed_path(s@, i as int, prefix@),
        within(r, s@, i as int),
{
    let a = match tag_str(s, i, prefix) {
        Some(a) => a,
        None => return Outcome::Backtrack,
    };
    match parse_non_regex_path(s, i + a) {
        Outcome::Done(n, v) => match tag_str(s, i + a + n, "\")") {
            Some(b) => Outcome::Done(a + n + b, v),
            None => Outcome::Backtrack,
        },
        Outcome::Backtrack => Outcome::Backtrack,
        Outcome::Fail(e) => Outcome::Fail(e),
    }
}

/// `regex_path` after `prefix` and followed by `")`.
fn parse_framed_regex_path(s: &[char], i: usize, prefix: &str) -> (r: Outcome<(String, Regex)>)
    requires
        i <= s.len(),
    ensures
        r@ == framed_regex_path(s@, i as int, prefix@),
        within(r, s@, i as int),
{
    let a = match tag_str(s, i, prefix) {
        Some(a) => a,
        None => return Outcome::Backtrack,
    };
    match parse_regex_path(s, i + a) {
        Outcome::Done(n, v) => match tag_str(s, i + a + n, "\")") {
            Some(b) => Outcome::Done(a + n + b, v),
            None => Outcome::Backtrack,
        },
        Outcome::Backtrack => Outcome::Backtrack,
        Outcome::Fail(e) => Outcome::Fail(e),
    }
}

/// `regex_filename` after `prefix` and followed by `")`.
fn parse_framed_regex_filename(s: &[char], i: usize, prefix: &str) -> (r: Outcome<Regex>)
    requires
        i <= s.len(),
    ensures
        r@ == framed_regex_filename(s@, i as int, prefix@),
        within(r, s@, i as int),
{
    let a = match tag_str(s, i, prefix) {
        Some(a) => a,
        None => return Outcome::Backtrack,
    };
    match parse_regex_filename(s, i + a) {
        Outcome::Done(n, v) => match tag_str(s, i + a + n, "\")") {
            Some(b) => Outcome::Done(a + n + b, v),
            None => Outcome::Backtrack,
        },
        Outcome::Backtrack => Outcome::Backtrack,
        Outcome::Fail(e) => Outcome::Fail(e),
    }
}

/// `version_args` after `prefix` and followed by `)`.
fn parse_framed_version(s: &[char], i: usize, prefix: &str) -> (r: Outcome<
    (String, String, ComparisonOperator),
>)
    requires
        i <= s.len(),
    ensures
        r@ == framed_version(s@, i as int, prefix@),
        within(r, s@, i as int),
{
    let a = match tag_str(s, i, prefix) {
        Some(a) => a,
        None => return Outcome::Backtrack,
    };
    match parse_version_args(s, i + a) {
        Outcome::Done(n, v) => match tag_str(s, i + a + n, ")") {
            Some(b) => Outcome::Done(a + n + b, v),
            None => Outcome::Backtrack,
        },
        Outcome::Backtrack => Outcome::Backtrack,
        Outcome::Fail(e) => Outcome::Fail(e),
    }
}

fn parse_file_size(s: &[char], i: usize) -> (r: Outcome<(String, u64)>)
    requires
        i <= s.len(),
    ensures
        r@ == framed(s@, i as int, "file_size("@, |j: int| file_size_args(s@, j), ")"@),
        within(r, s@, i as int),
{
    let a = match tag_str(s, i, "file_size(") {
        Some(a) => a,
        None => return Outcome::Backtrack,
    };
    match parse_file_size_args(s, i + a) {
        Outcome::Done(n, v) => match tag_str(s, i + a + n, ")") {
            Some(b) => Outcome::Done(a + n + b, v),
            None => Outcome::Backtrack,
        },
        Outcome::Backtrack => Outcome::Backtrack,
        Outcome::Fail(e) => Outcome::Fail(e),
    }
}

fn parse_filename_version(s: &[char], i: usize) -> (r: Outcome<
    (String, Regex, String, ComparisonOperator),
>)
    requires
        i <= s.len(),
    ensures
        r@ == framed(
            s@,
            i as int,
            "filename_version("@,
            |j: int| filename_version_args(s@, j),
            ")"@,
        ),
        within(r, s@, i as int),
{
    let a = match tag_str(s, i, "filename_version(") {
        Some(a) => a,
        None => return Outcome::Backtrack,
    };
    match parse_filename_version_args(s, i + a) {
        Outcome::Done(n, v) => match tag_str(s, i + a + n, ")") {
            Some(b) => Outcome::Done(a + n + b, v),
            None => Outcome::Backtrack,
        },
        Outcome::Backtrack => Outcome::Backtrack,
        Outcome::Fail(e) => Outcome::Fail(e),
    }
}

fn parse_checksum(s: &[char], i: usize) -> (r: Outcome<(String, u32)>)
    requires
        i <= s.len(),
    ensures
        r@ == framed(s@, i as int, "checksum("@, |j: int| checksum_args(s@, j), ")"@),
        within(r, s@, i as int),
{
    let a = match tag_str(s, i, "checksum(") {
        Some(a) => a,
        None => return Outcome::Backtrack,
    };
    match parse_checksum_args(s, i + a) {
        Outcome::Done(n, v) => match tag_str(s, i + a + n, ")") {
            Some(b) => Outcome::Done(a + n + b, v),
            None => Outcome::Backtrack,
        },
        Outcome::Backtrack => Outcome::Backtrack,
        Outcome::Fail(e) => Outcome::Fail(e),
    }
}

fn parse_description_contains(s: &[char], i: usize) -> (r: Outcome<(String, Regex)>)
    requires
        i <= s.len(),
    ensures
        r@ == framed(
            s@,
            i as int,
            "description_contains("@,
            |j: int| description_contains_args(s@, j),
            ")"@,
        ),
        within(r, s@, i as int),
{
    let a = match tag_str(s, i, "description_contains(") {
        Some(a) => a,
        None => return Outcome::Backtrack,
    };
    match parse_description_contains_args(s, i + a) {
        Outcome::Done(n, v) => match tag_str(s, i + a + n, ")") {
            Some(b) => Outcome::Done(a + n + b, v),
            None => Outcome::Backtrack,
        },
        Outcome::Backtrack => Outcome::Backtrack,
        Outcome::Fail(e) => Outcome::Fail(e),
    }
}

impl Function {
    /// Parses a function at position `i`, trying the kinds of function in
    /// the order in which `function` lists them.
    pub fn parse(s: &[char], i: usize) -> (r: Outcome<Function>)
        requires
            i <= s.len(),
        ensures
            r@ == function(s@, i as int),
            within(r, s@, i as int),
    {
        reveal(function);
    match parse_framed_path(s, i, "file(\"") {
        Outcome::Done(n, v) => {
            return Outcome::Done(n, Function::FilePath(v));
        },
        Outcome::Fail(e) => {
            return Outcome::Fail(e);
        },
        Outcome::Backtrack => {},
    }
    match parse_framed_regex_path(s, i, "file(\"") {
        Outcome::Done(n, v) => {
            return Outcome::Done(n, Function::FileRegex(v.0, v.1));
        },
        Outcome::Fail(e) => {
            return Outcome::Fail(e);
        },
        Outcome::Backtrack => {},
    }
    match parse_file_size(s, i) {
        Outcome::Done(n, v) => {
            return Outcome::Done(n, Function::FileSize(v.0, v.1));
        },
        Outcome::Fail(e) => {
            return Outcome::Fail(e);
        },
        Outcome::Backtrack => {},
    }
    match parse_framed_path(s, i, "readable(\"") {
        Outcome::Done(n, v) => {
            return Outcome::Done(n, Function::Readable(v));
        },
        Outcome::Fail(e) => {
            return Outcome::Fail(e);
        },
        Outcome::Backtrack => {},
    }
    match parse_framed_path(s, i, "is_executable(\"") {
        Outcome::Done(n, v) => {
            return Outcome::Done(n, Function::IsExecutable(v));
        },
        Outcome::Fail(e) => {
            return Outcome::Fail(e);
        },
        Outcome::Backtrack => {},
    }
    match parse_framed_path(s, i, "active(\"") {
        Outcome::Done(n, v) => {
            return Outcome::Done(n, Function::ActivePath(v));
        },
        Outcome::Fail(e) => {
            return Outcome::Fail(e);
        },
        Outcome::Backtrack => {},
    }
    match parse_framed_regex_filename(s, i, "active(\"") {
        Outcome::Done(n, v) => {
            return Outcome::Done(n, Function::ActiveRegex(v));
        },
        Outcome::Fail(e) => {
            return Outcome::Fail(e);
        },
        Outcome::Backtrack => {},
    }
        Self::parse_tail(s, i)
    }

    /// The alternatives of `parse` from `is_master` on.
    #[verifier::rlimit(50)]
    fn parse_tail(s: &[char], i: usize) -> (r: Outcome<Function>)
        requires
            i <= s.len(),
        ensures
            r@ == function_tail(s@, i as int),
            within(r, s@, i as int),
    {
        reveal(function_tail);
    match parse_framed_path(s, i, "is_master(\"") {
        Outcome::Done(n, v) => {
            return Outcome::Done(n, Function::IsMaster(v));
        },
        Outcome::Fail(e) => {
            return Outcome::Fail(e);
        },
        Outcome::Backtrack => {},
    }
    match parse_framed_regex_path(s, i, "many(\"") {
        Outcome::Done(n, v) => {
            return Outcome::Done(n, Function::Many(v.0, v.1));
        },
        Outcome::Fail(e) => {
            return Outcome::Fail(e);
        },
        Outcome::Backtrack => {},
    }
    match parse_framed_regex_filename(s, i, "many_active(\"") {
        Outcome::Done(n, v) => {
            return Outcome::Done(n, Function::ManyActive(v));
        },
        Outcome::Fail(e) => {
            return Outcome::Fail(e);
        },
        Outcome::Backtrack => {},
    }
    match parse_framed_version(s, i, "version(") {
        Outcome::Done(n, v) => {
            return Outcome::Done(n, Function::Version(v.0, v.1, v.2));
        },
        Outcome::Fail(e) => {
            return Outcome::Fail(e);
        },
        Outcome::Backtrack => {},
    }
    match parse_framed_version(s, i, "product_version(") {
        Outcome::Done(n, v) => {
            return Outcome::Done(n, Function::ProductVersion(v.0, v.1, v.2));
        },
        Outcome::Fail(e) => {
            return Outcome::Fail(e);
        },
        Outcome::Backtrack => {},
    }
    match parse_filename_version(s, i) {
        Outcome::Done(n, v) => {
            return Outcome::Done(n, Function::FilenameVersion(v.0, v.1, v.2, v.3));
        },
        Outcome::Fail(e) => {
            return Outcome::Fail(e);
        },
        Outcome::Backtrack => {},
    }
    match parse_checksum(s, i) {
        Outcome::Done(n, v) => {
            return Outcome::Done(n, Function::Checksum(v.0, v.1));
        },
        Outcome::Fail(e) => {
            return Outcome::Fail(e);
        },
        Outcome::Backtrack => {},
    }
        match parse_description_contains(s, i) {
            Outcome::Done(n, v) => Outcome::Done(n, Function::DescriptionContains(v.0, v.1)),
            Outcome::Fail(e) => Outcome::Fail(e),
            Outcome::Backtrack => Outcome::Backtrack,
        }
    }
}

} // verus!
