//! The functions that conditions are built from, how they are written, and
//! when two of them are the same.
use vstd::prelude::*;

use crate::pattern::Regex;
use crate::text::{case_fold, case_folded, caseless_eq, push_str, string_from_str};

pub mod crc;
pub mod eval;
pub mod plugin;
pub mod parse;
pub mod path;
pub mod round_trip;
pub mod version;

verus! {

broadcast use vstd::string::group_string_axioms;

/// How a version found on disk is compared against a given version.
#[derive(Clone, Copy, Debug, PartialEq, Eq, Hash, Structural)]
pub enum ComparisonOperator {
    Equal,
    NotEqual,
    LessThan,
    GreaterThan,
    LessThanOrEqual,
    GreaterThanOrEqual,
}

/// How a comparison operator is written.
pub open spec fn operator_text(c: ComparisonOperator) -> Seq<char> {
    match c {
        ComparisonOperator::Equal => "=="@,
        ComparisonOperator::NotEqual => "!="@,
        ComparisonOperator::LessThan => "<"@,
        ComparisonOperator::GreaterThan => ">"@,
        ComparisonOperator::LessThanOrEqual => "<="@,
        ComparisonOperator::GreaterThanOrEqual => ">="@,
    }
}

impl ComparisonOperator {
    /// How the operator is written.
    pub fn to_string(&self) -> (r: String)
        ensures
            r@ == operator_text(*self),
    {
        match self {
            ComparisonOperator::Equal => string_from_str("=="),
            ComparisonOperator::NotEqual => string_from_str("!="),
            ComparisonOperator::LessThan => string_from_str("<"),
            ComparisonOperator::GreaterThan => string_from_str(">"),
            ComparisonOperator::LessThanOrEqual => string_from_str("<="),
            ComparisonOperator::GreaterThanOrEqual => string_from_str(">="),
        }
    }
}

/// A function of a condition. Paths are relative to the game's data
/// directories; regexes match case-insensitively.
#[derive(Debug)]
pub enum Function {
    FilePath(String),
    FileRegex(String, Regex),
    FileSize(String, u64),
    Readable(String),
    IsExecutable(String),
    ActivePath(String),
    ActiveRegex(Regex),
    IsMaster(String),
    Many(String, Regex),
    ManyActive(Regex),
    Checksum(String, u32),
    Version(String, String, ComparisonOperator),
    ProductVersion(String, String, ComparisonOperator),
    FilenameVersion(String, Regex, String, ComparisonOperator),
    DescriptionContains(String, Regex),
}

/// The mathematical value of a `Function`: its strings as character
/// sequences, its regexes as their patterns.
pub enum FunctionView {
    FilePath(Seq<char>),
    FileRegex(Seq<char>, Seq<char>),
    FileSize(Seq<char>, u64),
    Readable(Seq<char>),
    IsExecutable(Seq<char>),
    ActivePath(Seq<char>),
    ActiveRegex(Seq<char>),
    IsMaster(Seq<char>),
    Many(Seq<char>, Seq<char>),
    ManyActive(Seq<char>),
    Checksum(Seq<char>, u32),
    Version(Seq<char>, Seq<char>, ComparisonOperator),
    ProductVersion(Seq<char>, Seq<char>, ComparisonOperator),
    FilenameVersion(Seq<char>, Seq<char>, Seq<char>, ComparisonOperator),
    DescriptionContains(Seq<char>, Seq<char>),
}

impl View for Function {
    type V = FunctionView;

    open spec fn view(&self) -> FunctionView {
        match self {
            Function::FilePath(p) => FunctionView::FilePath(p@),
            Function::FileRegex(p, r) => FunctionView::FileRegex(p@, r@),
            Function::FileSize(p, s) => FunctionView::FileSize(p@, *s),
            Function::Readable(p) => FunctionView::Readable(p@),
            Function::IsExecutable(p) => FunctionView::IsExecutable(p@),
            Function::ActivePath(p) => FunctionView::ActivePath(p@),
            Function::ActiveRegex(r) => FunctionView::ActiveRegex(r@),
            Function::IsMaster(p) => FunctionView::IsMaster(p@),
            Function::Many(p, r) => FunctionView::Many(p@, r@),
            Function::ManyActive(r) => FunctionView::ManyActive(r@),
            Function::Checksum(p, c) => FunctionView::Checksum(p@, *c),
            Function::Version(p, v, c) => FunctionView::Version(p@, v@, *c),
            Function::ProductVersion(p, v, c) => FunctionView::ProductVersion(p@, v@, *c),
            Function::FilenameVersion(p, r, v, c) => FunctionView::FilenameVersion(p@, r@, v@, *c),
            Function::DescriptionContains(p, r) => FunctionView::DescriptionContains(p@, r@),
        }
    }
}

impl Clone for Function {
    fn clone(&self) -> (r: Self)
        ensures
            r@ == self@,
    {
        match self {
            Function::FilePath(p) => Function::FilePath(p.clone()),
            Function::FileRegex(p, r) => Function::FileRegex(p.clone(), r.clone()),
            Function::FileSize(p, s) => Function::FileSize(p.clone(), *s),
            Function::Readable(p) => Function::Readable(p.clone()),
            Function::IsExecutable(p) => Function::IsExecutable(p.clone()),
            Function::ActivePath(p) => Function::ActivePath(p.clone()),
            Function::ActiveRegex(r) => Function::ActiveRegex(r.clone()),
            Function::IsMaster(p) => Function::IsMaster(p.clone()),
            Function::Many(p, r) => Function::Many(p.clone(), r.clone()),
            Function::ManyActive(r) => Function::ManyActive(r.clone()),
            Function::Checksum(p, c) => Function::Checksum(p.clone(), *c),
            Function::Version(p, v, c) => Function::Version(p.clone(), v.clone(), *c),
            Function::ProductVersion(p, v, c) => Function::ProductVersion(p.clone(), v.clone(), *c),
            Function::FilenameVersion(p, r, v, c) => Function::FilenameVersion(
                p.clone(),
                r.clone(),
                v.clone(),
                *c,
            ),
            Function::DescriptionContains(p, r) => Function::DescriptionContains(
                p.clone(),
                r.clone(),
            ),
        }
    }
}

/// Equality of strings up to Unicode case folding.
pub open spec fn caseless(a: Seq<char>, b: Seq<char>) -> bool {
    case_folded(a) == case_folded(b)
}

/// When two functions are the same: they are of the same kind, and their
/// paths, regexes and versions are equal up to case, their sizes, checksums
/// and comparison operators equal.
pub open spec fn same_function(a: FunctionView, b: FunctionView) -> bool {
    match (a, b) {
        (FunctionView::FilePath(p1), FunctionView::FilePath(p2)) => caseless(p1, p2),
        (FunctionView::Readable(p1), FunctionView::Readable(p2)) => caseless(p1, p2),
        (FunctionView::IsExecutable(p1), FunctionView::IsExecutable(p2)) => caseless(p1, p2),
        (FunctionView::ActivePath(p1), FunctionView::ActivePath(p2)) => caseless(p1, p2),
        (FunctionView::IsMaster(p1), FunctionView::IsMaster(p2)) => caseless(p1, p2),
        (FunctionView::FileRegex(p1, r1), FunctionView::FileRegex(p2, r2)) => caseless(r1, r2)
            && caseless(p1, p2),
        (FunctionView::Many(p1, r1), FunctionView::Many(p2, r2)) => caseless(r1, r2) && caseless(
            p1,
            p2,
        ),
        (
            FunctionView::DescriptionContains(p1, r1),
            FunctionView::DescriptionContains(p2, r2),
        ) => caseless(r1, r2) && caseless(p1, p2),
        (FunctionView::FileSize(p1, s1), FunctionView::FileSize(p2, s2)) => s1 == s2 && caseless(
            p1,
            p2,
        ),
        (FunctionView::ActiveRegex(r1), FunctionView::ActiveRegex(r2)) => caseless(r1, r2),
        (FunctionView::ManyActive(r1), FunctionView::ManyActive(r2)) => caseless(r1, r2),
        (FunctionView::Checksum(p1, c1), FunctionView::Checksum(p2, c2)) => c1 == c2 && caseless(
            p1,
            p2,
        ),
        (FunctionView::Version(p1, v1, c1), FunctionView::Version(p2, v2, c2)) => c1 == c2
            && caseless(v1, v2) && caseless(p1, p2),
        (FunctionView::ProductVersion(p1, v1, c1), FunctionView::ProductVersion(p2, v2, c2)) => c1
            == c2 && caseless(v1, v2) && caseless(p1, p2),
        (
            FunctionView::FilenameVersion(p1, r1, v1, c1),
            FunctionView::FilenameVersion(p2, r2, v2, c2),
        ) => c1 == c2 && caseless(v1, v2) && caseless(r1, r2) && caseless(p1, p2),
        _ => false,
    }
}

impl PartialEq for Function {
    fn eq(&self, other: &Function) -> (r: bool) {
        match (self, other) {
            (Function::FilePath(p1), Function::FilePath(p2))
            | (Function::Readable(p1), Function::Readable(p2))
            | (Function::IsExecutable(p1), Function::IsExecutable(p2))
            | (Function::ActivePath(p1), Function::ActivePath(p2))
            | (Function::IsMaster(p1), Function::IsMaster(p2)) => caseless_eq(
                p1.as_str(),
                p2.as_str(),
            ),
            (Function::FileRegex(p1, r1), Function::FileRegex(p2, r2))
            | (Function::Many(p1, r1), Function::Many(p2, r2))
            | (Function::DescriptionContains(p1, r1), Function::DescriptionContains(p2, r2)) => {
                caseless_eq(r1.as_str(), r2.as_str()) && caseless_eq(p1.as_str(), p2.as_str())
            },
            (Function::FileSize(p1, s1), Function::FileSize(p2, s2)) => *s1 == *s2 && caseless_eq(
                p1.as_str(),
                p2.as_str(),
            ),
            (Function::ActiveRegex(r1), Function::ActiveRegex(r2))
            | (Function::ManyActive(r1), Function::ManyActive(r2)) => caseless_eq(
                r1.as_str(),
                r2.as_str(),
            ),
            (Function::Checksum(p1, c1), Function::Checksum(p2, c2)) => *c1 == *c2 && caseless_eq(
                p1.as_str(),
                p2.as_str(),
            ),
            (Function::Version(p1, v1, c1), Function::Version(p2, v2, c2))
            | (Function::ProductVersion(p1, v1, c1), Function::ProductVersion(p2, v2, c2)) => {
                *c1 == *c2 && caseless_eq(v1.as_str(), v2.as_str()) && caseless_eq(
                    p1.as_str(),
                    p2.as_str(),
                )
            },
            (Function::FilenameVersion(p1, r1, v1, c1), Function::FilenameVersion(p2, r2, v2, c2)) => {
                *c1 == *c2 && caseless_eq(v1.as_str(), v2.as_str()) && caseless_eq(
                    r1.as_str(),
                    r2.as_str(),
                ) && caseless_eq(p1.as_str(), p2.as_str())
            },
            _ => false,
        }
    }
}

impl vstd::std_specs::cmp::PartialEqSpecImpl for Function {
    open spec fn obeys_eq_spec() -> bool {
        true
    }

    open spec fn eq_spec(&self, other: &Function) -> bool {
        same_function(self@, other@)
    }
}

/// Function equality is an equivalence relation: every function is the same
/// as itself, and sameness is symmetric and transitive.
pub proof fn lemma_same_function_is_equivalence(a: FunctionView, b: FunctionView, c: FunctionView)
    ensures
        same_function(a, a),
        same_function(a, b) ==> same_function(b, a),
        same_function(a, b) && same_function(b, c) ==> same_function(a, c),
{
}

/// Functions that are equal have equal hash keys: equality compares the
/// strings that the key holds by their case folding, and the numbers and
/// comparison operators exactly.
pub proof fn lemma_equal_functions_have_equal_keys(a: FunctionView, b: FunctionView)
    requires
        same_function(a, b),
    ensures
        function_kind(a) == function_kind(b),
        function_folded_texts(a) == function_folded_texts(b),
        function_number(a) == function_number(b),
        function_comparator(a) == function_comparator(b),
{
    assert(function_folded_texts(a) =~= function_folded_texts(b));
}

/// How a function is written in a condition string.
pub open spec fn function_text(f: FunctionView) -> Seq<char> {
    match f {
        FunctionView::FilePath(p) => "file(\""@ + p + "\")"@,
        FunctionView::FileRegex(p, r) => "file(\""@ + p + "/"@ + r + "\")"@,
        FunctionView::FileSize(p, s) => "file_size(\""@ + p + "\", "@ + crate::text::decimal(
            s as nat,
        ) + ")"@,
        FunctionView::Readable(p) => "readable(\""@ + p + "\")"@,
        FunctionView::IsExecutable(p) => "is_executable(\""@ + p + "\")"@,
        FunctionView::ActivePath(p) => "active(\""@ + p + "\")"@,
        FunctionView::ActiveRegex(r) => "active(\""@ + r + "\")"@,
        FunctionView::IsMaster(p) => "is_master(\""@ + p + "\")"@,
        FunctionView::Many(p, r) => "many(\""@ + p + "/"@ + r + "\")"@,
        FunctionView::ManyActive(r) => "many_active(\""@ + r + "\")"@,
        FunctionView::Checksum(p, c) => "checksum(\""@ + p + "\", "@
            + crate::text::hex_upper_padded(c as nat) + ")"@,
        FunctionView::Version(p, v, c) => "version(\""@ + p + "\", \""@ + v + "\", "@
            + operator_text(c) + ")"@,
        FunctionView::ProductVersion(p, v, c) => "product_version(\""@ + p + "\", \""@ + v
            + "\", "@ + operator_text(c) + ")"@,
        FunctionView::FilenameVersion(p, r, v, c) => "filename_version(\""@ + p + "/"@ + r
            + "\", \""@ + v + "\", "@ + operator_text(c) + ")"@,
        FunctionView::DescriptionContains(p, r) => "description_contains(\""@ + p + "\", \""@ + r
            + "\")"@,
    }
}

/// The parts of a function that identify it in a hash: which kind it is, its
/// case-folded strings, its number and its comparison operator.
#[derive(Clone, Debug, PartialEq, Eq, Hash)]
pub struct FunctionKey {
    pub kind: u8,
    pub texts: Vec<String>,
    pub number: u64,
    pub comparator: Option<ComparisonOperator>,
}

/// The kind of a function, numbered in the order of the variants.
pub open spec fn function_kind(f: FunctionView) -> u8 {
    match f {
        FunctionView::FilePath(..) => 0,
        FunctionView::FileRegex(..) => 1,
        FunctionView::FileSize(..) => 2,
        FunctionView::Readable(..) => 3,
        FunctionView::IsExecutable(..) => 4,
        FunctionView::ActivePath(..) => 5,
        FunctionView::ActiveRegex(..) => 6,
        FunctionView::IsMaster(..) => 7,
        FunctionView::Many(..) => 8,
        FunctionView::ManyActive(..) => 9,
        FunctionView::Checksum(..) => 10,
        FunctionView::Version(..) => 11,
        FunctionView::ProductVersion(..) => 12,
        FunctionView::FilenameVersion(..) => 13,
        FunctionView::DescriptionContains(..) => 14,
    }
}

/// The strings of a function that its hash covers, in order: path, regex,
/// version.
pub open spec fn function_texts(f: FunctionView) -> Seq<Seq<char>> {
    match f {
        FunctionView::FilePath(p) => seq![p],
        FunctionView::FileRegex(p, r) => seq![p, r],
        FunctionView::FileSize(p, _) => seq![p],
        FunctionView::Readable(p) => seq![p],
        FunctionView::IsExecutable(p) => seq![p],
        FunctionView::ActivePath(p) => seq![p],
        FunctionView::ActiveRegex(r) => seq![r],
        FunctionView::IsMaster(p) => seq![p],
        FunctionView::Many(p, r) => seq![p, r],
        FunctionView::ManyActive(r) => seq![r],
        FunctionView::Checksum(p, _) => seq![p],
        FunctionView::Version(p, v, _) => seq![p, v],
        FunctionView::ProductVersion(p, v, _) => seq![p, v],
        FunctionView::FilenameVersion(p, r, v, _) => seq![p, r, v],
        FunctionView::DescriptionContains(p, r) => seq![p, r],
    }
}

/// The strings of a function, case-folded as equality compares them.
pub open spec fn function_folded_texts(f: FunctionView) -> Seq<Seq<char>> {
    function_texts(f).map_values(|t: Seq<char>| case_folded(t))
}

/// The number of a function that its hash covers: a file size or a CRC.
pub open spec fn function_number(f: FunctionView) -> u64 {
    match f {
        FunctionView::FileSize(_, s) => s,
        FunctionView::Checksum(_, c) => c as u64,
        _ => 0,
    }
}

/// The comparison operator of a function, where it has one.
pub open spec fn function_comparator(f: FunctionView) -> Option<ComparisonOperator> {
    match f {
        FunctionView::Version(_, _, c) => Some(c),
        FunctionView::ProductVersion(_, _, c) => Some(c),
        FunctionView::FilenameVersion(_, _, _, c) => Some(c),
        _ => None,
    }
}

impl Function {
    /// The identifying parts of the function that its hash covers, with the
    /// strings case-folded, so that functions that are equal hash alike.
    pub fn hash_key(&self) -> (r: FunctionKey)
        ensures
            r.kind == function_kind(self@),
            r.texts@.map_values(|s: String| s@) == function_folded_texts(self@),
            r.number == function_number(self@),
            r.comparator == function_comparator(self@),
    {
        let (kind, texts, number, comparator): (u8, Vec<String>, u64, Option<ComparisonOperator>) =
            match self {
            Function::FilePath(p) => (0, vec![case_fold(p.as_str())], 0, None),
            Function::FileRegex(p, r) => (
                1,
                vec![case_fold(p.as_str()), case_fold(r.as_str())],
                0,
                None,
            ),
            Function::FileSize(p, s) => (2, vec![case_fold(p.as_str())], *s, None),
            Function::Readable(p) => (3, vec![case_fold(p.as_str())], 0, None),
            Function::IsExecutable(p) => (4, vec![case_fold(p.as_str())], 0, None),
            Function::ActivePath(p) => (5, vec![case_fold(p.as_str())], 0, None),
            Function::ActiveRegex(r) => (6, vec![case_fold(r.as_str())], 0, None),
            Function::IsMaster(p) => (7, vec![case_fold(p.as_str())], 0, None),
            Function::Many(p, r) => (
                8,
                vec![case_fold(p.as_str()), case_fold(r.as_str())],
                0,
                None,
            ),
            Function::ManyActive(r) => (9, vec![case_fold(r.as_str())], 0, None),
            Function::Checksum(p, c) => (10, vec![case_fold(p.as_str())], *c as u64, None),
            Function::Version(p, v, c) => (
                11,
                vec![case_fold(p.as_str()), case_fold(v.as_str())],
                0,
                Some(*c),
            ),
            Function::ProductVersion(p, v, c) => (
                12,
                vec![case_fold(p.as_str()), case_fold(v.as_str())],
                0,
                Some(*c),
            ),
            Function::FilenameVersion(p, r, v, c) => (
                13,
                vec![
                    case_fold(p.as_str()),
                    case_fold(r.as_str()),
                    case_fold(v.as_str()),
                ],
                0,
                Some(*c),
            ),
            Function::DescriptionContains(p, r) => (
                14,
                vec![case_fold(p.as_str()), case_fold(r.as_str())],
                0,
                None,
            ),
        };
        assert(texts@.map_values(|s: String| s@) =~= function_folded_texts(self@));
        FunctionKey { kind, texts, number, comparator }
    }

    /// How the function is written in a condition string.
    pub fn to_string(&self) -> (r: String)
        ensures
            r@ == function_text(self@),
    {
        let mut r = String::new();
        match self {
            Function::FilePath(p) => {
                push_str(&mut r, "file(\"");
                push_str(&mut r, p.as_str());
                push_str(&mut r, "\")");
            },
            Function::FileRegex(p, re) => {
                push_str(&mut r, "file(\"");
                push_str(&mut r, p.as_str());
                push_str(&mut r, "/");
                push_str(&mut r, re.as_str());
                push_str(&mut r, "\")");
            },
            Function::FileSize(p, s) => {
                push_str(&mut r, "file_size(\"");
                push_str(&mut r, p.as_str());
                push_str(&mut r, "\", ");
                crate::text::push_decimal(&mut r, *s);
                push_str(&mut r, ")");
            },
            Function::Readable(p) => {
                push_str(&mut r, "readable(\"");
                push_str(&mut r, p.as_str());
                push_str(&mut r, "\")");
            },
            Function::IsExecutable(p) => {
                push_str(&mut r, "is_executable(\"");
                push_str(&mut r, p.as_str());
                push_str(&mut r, "\")");
            },
            Function::ActivePath(p) => {
                push_str(&mut r, "active(\"");
                push_str(&mut r, p.as_str());
                push_str(&mut r, "\")");
            },
            Function::ActiveRegex(re) => {
                push_str(&mut r, "active(\"");
                push_str(&mut r, re.as_str());
                push_str(&mut r, "\")");
            },
            Function::IsMaster(p) => {
                push_str(&mut r, "is_master(\"");
                push_str(&mut r, p.as_str());
                push_str(&mut r, "\")");
            },
            Function::Many(p, re) => {
                push_str(&mut r, "many(\"");
                push_str(&mut r, p.as_str());
                push_str(&mut r, "/");
                push_str(&mut r, re.as_str());
                push_str(&mut r, "\")");
            },
            Function::ManyActive(re) => {
                push_str(&mut r, "many_active(\"");
                push_str(&mut r, re.as_str());
                push_str(&mut r, "\")");
            },
            Function::Checksum(p, c) => {
                push_str(&mut r, "checksum(\"");
                push_str(&mut r, p.as_str());
                push_str(&mut r, "\", ");
                crate::text::push_hex_upper_padded(&mut r, *c as u64);
                push_str(&mut r, ")");
            },
            Function::Version(p, v, c) => {
                push_str(&mut r, "version(\"");
                push_str(&mut r, p.as_str());
                push_str(&mut r, "\", \"");
                push_str(&mut r, v.as_str());
                push_str(&mut r, "\", ");
                let op = c.to_string();
                push_str(&mut r, op.as_str());
                push_str(&mut r, ")");
            },
            Function::ProductVersion(p, v, c) => {
                push_str(&mut r, "product_version(\"");
                push_str(&mut r, p.as_str());
                push_str(&mut r, "\", \"");
                push_str(&mut r, v.as_str());
                push_str(&mut r, "\", ");
                let op = c.to_string();
                push_str(&mut r, op.as_str());
                push_str(&mut r, ")");
            },
            Function::FilenameVersion(p, re, v, c) => {
                push_str(&mut r, "filename_version(\"");
                push_str(&mut r, p.as_str());
                push_str(&mut r, "/");
                push_str(&mut r, re.as_str());
                push_str(&mut r, "\", \"");
                push_str(&mut r, v.as_str());
                push_str(&mut r, "\", ");
                let op = c.to_string();
                push_str(&mut r, op.as_str());
                push_str(&mut r, ")");
            },
            Function::DescriptionContains(p, re) => {
                push_str(&mut r, "description_contains(\"");
                push_str(&mut r, p.as_str());
                push_str(&mut r, "\", \"");
                push_str(&mut r, re.as_str());
                push_str(&mut r, "\")");
            },
        }
        r
    }
}

} // verus!
