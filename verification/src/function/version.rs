//! Version strings: how they are read, and how two versions compare.
use vstd::prelude::*;

use core::cmp::Ordering;

use crate::pattern::{match_once, regex_build_outcome, regex_is_match};
use crate::text::{
    is_ascii_text, lemma_ascii_lowercase_reads_same_number,
    chars_of, chars_parse_u32, is_digit, lowercase, parse_u32, pos, string_of, to_lowercase,
    trim, trim_chars,
};

pub mod pe;

use crate::error::{Error, ErrorView};
use pe::{file_version, product_version, version_resource};

verus! {

broadcast use vstd::string::group_string_axioms;

/// An identifier of a version: a number where the text (without surrounding
/// whitespace) reads as a `u32`, else the lowercased text.
pub enum IdView {
    Numeric(u32),
    NonNumeric(Seq<char>),
}

/// One of the dot- or comma-separated parts of a version's release.
#[derive(Clone, Debug)]
pub enum ReleaseId {
    Numeric(u32),
    NonNumeric(String),
}

/// One of the parts of a version after its release.
#[derive(Clone, Debug)]
pub enum PreReleaseId {
    Numeric(u32),
    NonNumeric(String),
}

impl View for ReleaseId {
    type V = IdView;

    open spec fn view(&self) -> IdView {
        match self {
            ReleaseId::Numeric(n) => IdView::Numeric(*n),
            ReleaseId::NonNumeric(s) => IdView::NonNumeric(s@),
        }
    }
}

impl View for PreReleaseId {
    type V = IdView;

    open spec fn view(&self) -> IdView {
        match self {
            PreReleaseId::Numeric(n) => IdView::Numeric(*n),
            PreReleaseId::NonNumeric(s) => IdView::NonNumeric(s@),
        }
    }
}

/// The identifier that a piece of a version string gives.
pub open spec fn id_of(s: Seq<char>) -> IdView {
    match parse_u32(trim(s)) {
        Some(n) => IdView::Numeric(n),
        None => IdView::NonNumeric(lowercase(s)),
    }
}

/// Whether an identifier is as `id_of` makes them: text only where it does
/// not read as a number.
pub open spec fn well_formed_id(id: IdView) -> bool {
    id matches IdView::NonNumeric(s) ==> parse_u32(trim(s)) is None
}

/// The reverse of an ordering.
pub open spec fn reversed(o: Ordering) -> Ordering {
    match o {
        Ordering::Less => Ordering::Greater,
        Ordering::Equal => Ordering::Equal,
        Ordering::Greater => Ordering::Less,
    }
}

pub open spec fn compare_u32(a: u32, b: u32) -> Ordering {
    if a < b {
        Ordering::Less
    } else if a == b {
        Ordering::Equal
    } else {
        Ordering::Greater
    }
}

/// Lexicographic comparison of strings by their characters.
pub open spec fn compare_text(a: Seq<char>, b: Seq<char>) -> Ordering
    decreases a.len(),
{
    if a.len() == 0 {
        if b.len() == 0 {
            Ordering::Equal
        } else {
            Ordering::Less
        }
    } else if b.len() == 0 {
        Ordering::Greater
    } else if a[0] < b[0] {
        Ordering::Less
    } else if a[0] > b[0] {
        Ordering::Greater
    } else {
        compare_text(a.drop_first(), b.drop_first())
    }
}

/// The number of leading ASCII digits.
pub open spec fn leading_digits(s: Seq<char>) -> nat
    decreases s.len(),
{
    if s.len() > 0 && is_digit(s[0]) {
        1 + leading_digits(s.drop_first())
    } else {
        0
    }
}

/// The number that the leading digits of a string give, if they give one,
/// and whether any characters follow them.
pub open spec fn leading_number(s: Seq<char>) -> (Option<u32>, bool) {
    (parse_u32(s.take(leading_digits(s) as int)), leading_digits(s) < s.len())
}

/// How a number compares with a text identifier: by the text's leading
/// number, the number being less where that is equal but more text follows;
/// a text without a leading number is always greater.
pub open spec fn compare_number_text(n: u32, s: Seq<char>) -> Ordering {
    match leading_number(s) {
        (Some(m), more) => if compare_u32(n, m) == Ordering::Equal && more {
            Ordering::Less
        } else {
            compare_u32(n, m)
        },
        (None, _) => Ordering::Less,
    }
}

/// How two release identifiers compare.
pub open spec fn compare_release_ids(a: IdView, b: IdView) -> Ordering {
    match (a, b) {
        (IdView::Numeric(x), IdView::Numeric(y)) => compare_u32(x, y),
        (IdView::NonNumeric(x), IdView::NonNumeric(y)) => compare_text(x, y),
        (IdView::Numeric(x), IdView::NonNumeric(y)) => compare_number_text(x, y),
        (IdView::NonNumeric(x), IdView::Numeric(y)) => reversed(compare_number_text(y, x)),
    }
}

/// When two release identifiers are equal: a number equals a text that
/// reads as the same number.
pub open spec fn release_ids_equal(a: IdView, b: IdView) -> bool {
    match (a, b) {
        (IdView::Numeric(x), IdView::Numeric(y)) => x == y,
        (IdView::NonNumeric(x), IdView::NonNumeric(y)) => x == y,
        (IdView::Numeric(x), IdView::NonNumeric(y)) => parse_u32(trim(y)) == Some(x),
        (IdView::NonNumeric(x), IdView::Numeric(y)) => parse_u32(trim(x)) == Some(y),
    }
}

/// How two pre-release identifiers compare: numbers before texts.
pub open spec fn compare_pre_release_ids(a: IdView, b: IdView) -> Ordering {
    match (a, b) {
        (IdView::Numeric(x), IdView::Numeric(y)) => compare_u32(x, y),
        (IdView::NonNumeric(x), IdView::NonNumeric(y)) => compare_text(x, y),
        (IdView::Numeric(_), IdView::NonNumeric(_)) => Ordering::Less,
        (IdView::NonNumeric(_), IdView::Numeric(_)) => Ordering::Greater,
    }
}


/// The mathematical value of a version: its release identifiers and its
/// pre-release identifiers.
pub struct VersionView {
    pub release: Seq<IdView>,
    pub pre_release: Seq<IdView>,
}

/// A version: release identifiers, then pre-release identifiers.
#[derive(Debug)]
pub struct Version {
    release_ids: Vec<ReleaseId>,
    pre_release_ids: Vec<PreReleaseId>,
}

impl View for Version {
    type V = VersionView;

    closed spec fn view(&self) -> VersionView {
        VersionView {
            release: self.release_ids@.map_values(|r: ReleaseId| r@),
            pre_release: self.pre_release_ids@.map_values(|r: PreReleaseId| r@),
        }
    }
}

/// The release identifier at a position, where the shorter of two releases
/// counts as padded with zeroes.
pub open spec fn release_at(ids: Seq<IdView>, i: int) -> IdView {
    if 0 <= i < ids.len() {
        ids[i]
    } else {
        IdView::Numeric(0)
    }
}

pub open spec fn longest(a: Seq<IdView>, b: Seq<IdView>) -> int {
    if a.len() >= b.len() {
        a.len() as int
    } else {
        b.len() as int
    }
}

/// How two releases compare from a position on, the shorter padded with
/// zeroes: by the first identifiers that differ.
pub open spec fn compare_releases_from(a: Seq<IdView>, b: Seq<IdView>, i: int) -> Ordering
    decreases longest(a, b) - i,
{
    if i < 0 || i >= longest(a, b) {
        Ordering::Equal
    } else {
        let o = compare_release_ids(release_at(a, i), release_at(b, i));
        if o == Ordering::Equal {
            compare_releases_from(a, b, i + 1)
        } else {
            o
        }
    }
}

/// Whether two releases are equal from a position on, the shorter padded
/// with zeroes.
pub open spec fn releases_equal_from(a: Seq<IdView>, b: Seq<IdView>, i: int) -> bool
    decreases longest(a, b) - i,
{
    if i < 0 || i >= longest(a, b) {
        true
    } else {
        release_ids_equal(release_at(a, i), release_at(b, i)) && releases_equal_from(a, b, i + 1)
    }
}

/// Lexicographic comparison of pre-release identifiers; a proper prefix is
/// less.
pub open spec fn compare_pre_releases(a: Seq<IdView>, b: Seq<IdView>) -> Ordering
    decreases a.len(),
{
    if a.len() == 0 {
        if b.len() == 0 {
            Ordering::Equal
        } else {
            Ordering::Less
        }
    } else if b.len() == 0 {
        Ordering::Greater
    } else {
        let o = compare_pre_release_ids(a[0], b[0]);
        if o == Ordering::Equal {
            compare_pre_releases(a.drop_first(), b.drop_first())
        } else {
            o
        }
    }
}

/// How two versions compare: by their releases, padded with zeroes; where
/// those are equal, a version without pre-release identifiers is greater
/// than one with them, and otherwise the pre-release identifiers decide.
pub open spec fn compare_versions(a: VersionView, b: VersionView) -> Ordering {
    let r = compare_releases_from(a.release, b.release, 0);
    if r == Ordering::Equal {
        if a.pre_release.len() == 0 && b.pre_release.len() > 0 {
            Ordering::Greater
        } else if a.pre_release.len() > 0 && b.pre_release.len() == 0 {
            Ordering::Less
        } else {
            compare_pre_releases(a.pre_release, b.pre_release)
        }
    } else {
        r
    }
}

/// When two versions are equal: their releases, padded with zeroes, are
/// equal, and so are their pre-release identifiers.
pub open spec fn versions_equal(a: VersionView, b: VersionView) -> bool {
    releases_equal_from(a.release, b.release, 0) && a.pre_release == b.pre_release
}

pub open spec fn is_separator(c: char) -> bool {
    c == '-' || c == ' ' || c == ':' || c == '_'
}

pub open spec fn is_pre_release_separator(c: char) -> bool {
    c == '.' || is_separator(c)
}

pub open spec fn is_release_separator(c: char) -> bool {
    c == '.' || c == ','
}

/// The separators between the identifiers of a release (`pre` false) or of
/// a pre-release (`pre` true).
pub open spec fn separates(c: char, pre: bool) -> bool {
    if pre {
        is_pre_release_separator(c)
    } else {
        is_release_separator(c)
    }
}

/// The pieces of a string between separators, as `str::split` gives them:
/// always at least one, empty ones included.
pub open spec fn pieces(s: Seq<char>, pre: bool) -> Seq<Seq<char>>
    decreases s.len(),
{
    if s.len() == 0 {
        seq![Seq::empty()]
    } else {
        let r = pieces(s.drop_last(), pre);
        if separates(s.last(), pre) {
            r.push(Seq::empty())
        } else {
            r.update(r.len() - 1, r.last().push(s.last()))
        }
    }
}

proof fn lemma_pieces_nonempty(s: Seq<char>, pre: bool)
    ensures
        pieces(s, pre).len() >= 1,
    decreases s.len(),
{
    if s.len() > 0 {
        lemma_pieces_nonempty(s.drop_last(), pre);
    }
}

/// The pieces of `str::split_terminator`: those of `pieces`, without a
/// trailing empty piece.
pub open spec fn terminated_pieces(s: Seq<char>, pre: bool) -> Seq<Seq<char>> {
    let r = pieces(s, pre);
    if r.last().len() == 0 {
        r.drop_last()
    } else {
        r
    }
}

/// The position of the first `+`, or of the first separator between release
/// and pre-release (`separator` true).
pub open spec fn first_of(s: Seq<char>, separator: bool) -> Option<int>
    decreases s.len(),
{
    if s.len() == 0 {
        None
    } else if (separator && is_separator(s[0])) || (!separator && s[0] == '+') {
        Some(0)
    } else {
        match first_of(s.drop_first(), separator) {
            Some(k) => Some(k + 1),
            None => None,
        }
    }
}

/// A version string without its build metadata (from the first `+` on); an
/// empty version counts as `0`.
pub open spec fn without_metadata(v: Seq<char>) -> Seq<char> {
    if v.len() == 0 {
        seq!['0']
    } else {
        match first_of(v, false) {
            Some(k) => v.take(k),
            None => v,
        }
    }
}

/// The pattern of the comma-separated versions of the form `0, 1, 2, 3`.
pub open spec fn comma_list_pattern() -> Seq<char> {
    "\\d+, \\d+, \\d+, \\d+"@
}

/// A version string split into its release and its pre-release: strings
/// holding a comma-separated version of the form `0, 1, 2, 3` are all
/// release; others split at the first separator.
pub open spec fn split_version(v: Seq<char>) -> (Seq<char>, Seq<char>) {
    if regex_build_outcome(comma_list_pattern(), false) is Ok && regex_is_match(
        comma_list_pattern(),
        false,
        v,
    ) {
        (v, Seq::empty())
    } else {
        match first_of(v, true) {
            Some(k) => (v.take(k), v.skip(k + 1)),
            None => (v, Seq::empty()),
        }
    }
}

/// The version that a string gives.
pub open spec fn version_of(s: Seq<char>) -> VersionView {
    let (release, pre_release) = split_version(without_metadata(s));
    VersionView {
        release: pieces(release, false).map_values(|p: Seq<char>| id_of(p)),
        pre_release: terminated_pieces(pre_release, true).map_values(|p: Seq<char>| id_of(p)),
    }
}


/// The number that a piece reads as, or else the piece lowercased; where
/// the piece is ASCII, the lowercased text reads as no number either.
fn number_or_text(s: &[char]) -> (r: (Option<u32>, String))
    ensures
        r.0 == parse_u32(trim(s@)),
        r.0 is None ==> r.1@ == lowercase(s@),
        r.0 is None && is_ascii_text(s@) ==> parse_u32(trim(r.1@)) is None,
{
    let t = trim_chars(s);
    match chars_parse_u32(t.as_slice()) {
        Some(n) => (Some(n), String::new()),
        None => {
            let text = string_of(s);
            let lower = to_lowercase(text.as_str());
            proof {
                lemma_ascii_lowercase_reads_same_number(s@);
            }
            (None, lower)
        },
    }
}

impl ReleaseId {
    fn of_chars(s: &[char]) -> (r: ReleaseId)
        ensures
            r@ == id_of(s@),
            is_ascii_text(s@) ==> well_formed_id(r@),
    {
        match number_or_text(s) {
            (Some(n), _) => ReleaseId::Numeric(n),
            (None, text) => ReleaseId::NonNumeric(text),
        }
    }

    /// The release identifier that a piece of a version string gives.
    pub fn from(s: &str) -> (r: ReleaseId)
        ensures
            r@ == id_of(s@),
    {
        let c = chars_of(s);
        ReleaseId::of_chars(c.as_slice())
    }
}

impl PreReleaseId {
    fn of_chars(s: &[char]) -> (r: PreReleaseId)
        ensures
            r@ == id_of(s@),
            is_ascii_text(s@) ==> well_formed_id(r@),
    {
        match number_or_text(s) {
            (Some(n), _) => PreReleaseId::Numeric(n),
            (None, text) => PreReleaseId::NonNumeric(text),
        }
    }

    /// The pre-release identifier that a piece of a version string gives.
    pub fn from(s: &str) -> (r: PreReleaseId)
        ensures
            r@ == id_of(s@),
    {
        let c = chars_of(s);
        PreReleaseId::of_chars(c.as_slice())
    }
}

fn separates_exec(c: char, pre: bool) -> (r: bool)
    ensures
        r == separates(c, pre),
{
    if pre {
        c == '.' || c == '-' || c == ' ' || c == ':' || c == '_'
    } else {
        c == '.' || c == ','
    }
}

/// The pieces of a string between separators.
fn split_pieces(s: &[char], pre: bool) -> (r: Vec<Vec<char>>)
    ensures
        r@.len() == pieces(s@, pre).len(),
        forall|j: int| 0 <= j < r@.len() ==> #[trigger] r@[j]@ == pieces(s@, pre)[j],
{
    let mut out: Vec<Vec<char>> = Vec::new();
    let mut cur: Vec<char> = Vec::new();
    let mut i: usize = 0;
    assert(s@.take(0) =~= Seq::<char>::empty());
    while i < s.len()
        invariant
            i <= s.len(),
            pieces(s@.take(i as int), pre).len() == out@.len() + 1,
            forall|j: int|
                0 <= j < out@.len() ==> #[trigger] out@[j]@ == pieces(s@.take(i as int), pre)[j],
            cur@ == pieces(s@.take(i as int), pre).last(),
        decreases s.len() - i,
    {
        proof {
            assert(s@.take(i + 1).drop_last() =~= s@.take(i as int));
            assert(s@.take(i + 1).last() == s@[i as int]);
        }
        if separates_exec(s[i], pre) {
            let done = cur;
            out.push(done);
            cur = Vec::new();
        } else {
            cur.push(s[i]);
        }
        i = i + 1;
    }
    assert(s@.take(s.len() as int) =~= s@);
    out.push(cur);
    out
}

/// A version string without its build metadata.
fn without_metadata_exec(v: &[char]) -> (r: Vec<char>)
    ensures
        r@ == without_metadata(v@),
{
    if v.len() == 0 {
        let r = vec!['0'];
        assert(r@ =~= seq!['0']);
        return r;
    }
    match find_first(v, false) {
        Some(k) => vstd::slice::slice_to_vec(&v[0..k]),
        None => vstd::slice::slice_to_vec(v),
    }
}

fn find_first(v: &[char], separator: bool) -> (r: Option<usize>)
    ensures
        match r {
            Some(k) => first_of(v@, separator) == Some(k as int) && k < v.len(),
            None => first_of(v@, separator) is None,
        },
{
    let mut i: usize = 0;
    assert(v@.skip(0) =~= v@);
    while i < v.len()
        invariant
            i <= v.len(),
            first_of(v@, separator) == match first_of(v@.skip(i as int), separator) {
                Some(k) => Some(k + i),
                None => None,
            },
        decreases v.len() - i,
    {
        let c = v[i];
        let hit = (separator && (c == '-' || c == ' ' || c == ':' || c == '_')) || (!separator
            && c == '+');
        assert(v@.skip(i as int).drop_first() =~= v@.skip(i + 1));
        if hit {
            return Some(i);
        }
        i = i + 1;
    }
    None
}

/// A version string split into its release and its pre-release.
fn split_version_exec(v: &[char]) -> (r: (Vec<char>, Vec<char>))
    ensures
        (r.0@, r.1@) == split_version(v@),
{
    let text = string_of(v);
    if let Some(true) = match_once("\\d+, \\d+, \\d+, \\d+", text.as_str()) {
        return (vstd::slice::slice_to_vec(v), Vec::new());
    }
    match find_first(v, true) {
        Some(k) => (
            vstd::slice::slice_to_vec(&v[0..k]),
            vstd::slice::slice_to_vec(&v[k + 1..v.len()]),
        ),
        None => (vstd::slice::slice_to_vec(v), Vec::new()),
    }
}

proof fn lemma_first_of_bounds(s: Seq<char>, separator: bool)
    ensures
        first_of(s, separator) matches Some(k) ==> 0 <= k < s.len(),
    decreases s.len(),
{
    if s.len() > 0 {
        lemma_first_of_bounds(s.drop_first(), separator);
    }
}

proof fn lemma_pieces_ascii(s: Seq<char>, pre: bool)
    requires
        is_ascii_text(s),
    ensures
        forall|j: int| 0 <= j < pieces(s, pre).len() ==> is_ascii_text(#[trigger] pieces(s, pre)[j]),
    decreases s.len(),
{
    if s.len() > 0 {
        lemma_pieces_ascii(s.drop_last(), pre);
        lemma_pieces_nonempty(s.drop_last(), pre);
        let r = pieces(s.drop_last(), pre);
        assert(is_ascii_text(r.last().push(s.last())));
    }
}

/// The pieces of the release and pre-release of an ASCII version string are
/// ASCII.
proof fn lemma_version_parts_ascii(s: Seq<char>)
    requires
        is_ascii_text(s),
    ensures
        is_ascii_text(split_version(without_metadata(s)).0),
        is_ascii_text(split_version(without_metadata(s)).1),
        forall|j: int| 0 <= j < pieces(split_version(without_metadata(s)).0, false).len()
            ==> is_ascii_text(#[trigger] pieces(split_version(without_metadata(s)).0, false)[j]),
        forall|j: int| 0 <= j < pieces(split_version(without_metadata(s)).1, true).len()
            ==> is_ascii_text(#[trigger] pieces(split_version(without_metadata(s)).1, true)[j]),
{
    let m = without_metadata(s);
    assert(is_ascii_text(m)) by {
        if s.len() == 0 {
            assert(m[0] == '0');
        } else {
            match first_of(s, false) {
                Some(k) => {
                    lemma_first_of_bounds(s, false);
                    assert forall|i: int| 0 <= i < m.len() implies (#[trigger] m[i] as u32) < 128 by {
                        assert(m[i] == s[i]);
                    }
                },
                None => {},
            }
        }
    }
    let (a, b) = split_version(m);
    assert(is_ascii_text(a) && is_ascii_text(b)) by {
        if !(regex_build_outcome(comma_list_pattern(), false) is Ok && regex_is_match(
            comma_list_pattern(),
            false,
            m,
        )) {
            match first_of(m, true) {
                Some(k) => {
                    lemma_first_of_bounds(m, true);
                    assert forall|i: int| 0 <= i < a.len() implies (#[trigger] a[i] as u32) < 128 by {
                        assert(a[i] == m[i]);
                    }
                    assert forall|i: int| 0 <= i < b.len() implies (#[trigger] b[i] as u32) < 128 by {
                        assert(b[i] == m[i + k + 1]);
                    }
                },
                None => {},
            }
        }
    }
    lemma_pieces_ascii(a, false);
    lemma_pieces_ascii(b, true);
}

impl Version {
    /// The version that a string gives.
    pub fn from(s: &str) -> (r: Version)
        ensures
            r@ == version_of(s@),
            is_ascii_text(s@) ==> well_formed_version(r@),
    {
        let c = chars_of(s);
        let m = without_metadata_exec(c.as_slice());
        let (release, pre_release) = split_version_exec(m.as_slice());
        let release_pieces = split_pieces(release.as_slice(), false);
        let pre_pieces = split_pieces(pre_release.as_slice(), true);
        let ghost rp = pieces(release@, false);
        let ghost pp = pieces(pre_release@, true);
        proof {
            if is_ascii_text(s@) {
                lemma_version_parts_ascii(s@);
            }
        }
        let mut release_ids: Vec<ReleaseId> = Vec::new();
        let mut i: usize = 0;
        while i < release_pieces.len()
            invariant
                i <= release_pieces@.len(),
                release_pieces@.len() == rp.len(),
                forall|j: int| 0 <= j < rp.len() ==> #[trigger] release_pieces@[j]@ == rp[j],
                release_ids@.len() == i,
                forall|j: int|
                    0 <= j < i ==> #[trigger] release_ids@[j]@ == id_of(rp[j]),
                is_ascii_text(s@) ==> forall|j: int| 0 <= j < rp.len() ==> is_ascii_text(#[trigger] rp[j]),
                is_ascii_text(s@) ==> forall|j: int| 0 <= j < i ==> well_formed_id(#[trigger] release_ids@[j]@),
            decreases release_pieces@.len() - i,
        {
            release_ids.push(ReleaseId::of_chars(release_pieces[i].as_slice()));
            i = i + 1;
        }
        let keep = if pre_pieces.len() > 0 && pre_pieces[pre_pieces.len() - 1].len() == 0 {
            pre_pieces.len() - 1
        } else {
            pre_pieces.len()
        };
        let ghost tp = terminated_pieces(pre_release@, true);
        proof {
            lemma_pieces_nonempty(pre_release@, true);
            assert(pre_pieces@[pre_pieces@.len() - 1]@ == pp.last());
            assert(tp.len() == keep);
        }
        let mut pre_release_ids: Vec<PreReleaseId> = Vec::new();
        let mut j: usize = 0;
        while j < keep
            invariant
                j <= keep,
                keep == tp.len(),
                keep <= pre_pieces@.len(),
                pre_pieces@.len() == pp.len(),
                forall|k: int| 0 <= k < pp.len() ==> #[trigger] pre_pieces@[k]@ == pp[k],
                forall|k: int| 0 <= k < tp.len() ==> #[trigger] tp[k] == pp[k],
                pre_release_ids@.len() == j,
                forall|k: int| 0 <= k < j ==> #[trigger] pre_release_ids@[k]@ == id_of(tp[k]),
                is_ascii_text(s@) ==> forall|k: int| 0 <= k < pp.len() ==> is_ascii_text(#[trigger] pp[k]),
                is_ascii_text(s@) ==> forall|k: int| 0 <= k < j ==> well_formed_id(#[trigger] pre_release_ids@[k]@),
            decreases keep - j,
        {
            pre_release_ids.push(PreReleaseId::of_chars(pre_pieces[j].as_slice()));
            j = j + 1;
        }
        let r = Version { release_ids, pre_release_ids };
        assert(r@.release =~= rp.map_values(|p: Seq<char>| id_of(p)));
        assert(r@.pre_release =~= tp.map_values(|p: Seq<char>| id_of(p)));
        r
    }

    /// The release identifiers.
    pub fn release_ids(&self) -> (r: &Vec<ReleaseId>)
        ensures
            r@.map_values(|x: ReleaseId| x@) == self@.release,
    {
        &self.release_ids
    }

    /// The pre-release identifiers.
    pub fn pre_release_ids(&self) -> (r: &Vec<PreReleaseId>)
        ensures
            r@.map_values(|x: PreReleaseId| x@) == self@.pre_release,
    {
        &self.pre_release_ids
    }
}

/// The ordering of two numbers.
fn compare_numbers(a: u32, b: u32) -> (r: Ordering)
    ensures
        r == compare_u32(a, b),
{
    if a < b {
        Ordering::Less
    } else if a == b {
        Ordering::Equal
    } else {
        Ordering::Greater
    }
}

fn reverse(o: Ordering) -> (r: Ordering)
    ensures
        r == reversed(o),
{
    match o {
        Ordering::Less => Ordering::Greater,
        Ordering::Equal => Ordering::Equal,
        Ordering::Greater => Ordering::Less,
    }
}

/// Lexicographic comparison of two character slices.
fn compare_chars(a: &[char], b: &[char]) -> (r: Ordering)
    ensures
        r == compare_text(a@, b@),
{
    let mut i: usize = 0;
    assert(a@.skip(0) =~= a@);
    assert(b@.skip(0) =~= b@);
    while i < a.len() && i < b.len()
        invariant
            i <= a.len(),
            i <= b.len(),
            compare_text(a@, b@) == compare_text(a@.skip(pos(i)), b@.skip(pos(i))),
        decreases a.len() - i,
    {
        let x = a[i];
        let y = b[i];
        assert(a@.skip(pos(i))[0] == x);
        assert(b@.skip(pos(i))[0] == y);
        if x < y {
            return Ordering::Less;
        } else if x > y {
            return Ordering::Greater;
        }
        assert(a@.skip(pos(i)).drop_first() =~= a@.skip(pos(i) + 1));
        assert(b@.skip(pos(i)).drop_first() =~= b@.skip(pos(i) + 1));
        i = i + 1;
    }
    if i < a.len() {
        Ordering::Greater
    } else if i < b.len() {
        Ordering::Less
    } else {
        Ordering::Equal
    }
}

/// The number that the leading ASCII digits of a slice give, and whether any
/// characters follow those digits.
fn leading_number_of(s: &[char]) -> (r: (Option<u32>, bool))
    ensures
        r == leading_number(s@),
{
    let mut k: usize = 0;
    assert(s@.skip(0) =~= s@);
    while k < s.len() && '0' <= s[k] && s[k] <= '9'
        invariant
            k <= s.len(),
            leading_digits(s@) == k + leading_digits(s@.skip(k as int)),
        decreases s.len() - k,
    {
        assert(s@.skip(k as int).drop_first() =~= s@.skip(k + 1));
        k = k + 1;
    }
    let n = chars_parse_u32(&s[0..k]);
    assert(s@.subrange(0, k as int) =~= s@.take(k as int));
    (n, k < s.len())
}

/// How a number compares with a text identifier.
fn compare_number_chars(n: u32, s: &[char]) -> (r: Ordering)
    ensures
        r == compare_number_text(n, s@),
{
    let (m, more) = leading_number_of(s);
    match m {
        Some(m) => {
            if n == m && more {
                Ordering::Less
            } else {
                compare_numbers(n, m)
            }
        },
        None => Ordering::Less,
    }
}

/// Whether the text, without surrounding whitespace, reads as the number.
fn reads_as_number(n: u32, s: &String) -> (r: bool)
    ensures
        r == (parse_u32(trim(s@)) == Some(n)),
{
    let c = chars_of(s.as_str());
    let t = trim_chars(c.as_slice());
    match chars_parse_u32(t.as_slice()) {
        Some(m) => m == n,
        None => false,
    }
}

impl ReleaseId {
    /// How this release identifier compares with another.
    pub fn compare(&self, other: &ReleaseId) -> (r: Ordering)
        ensures
            r == compare_release_ids(self@, other@),
    {
        match (self, other) {
            (ReleaseId::Numeric(x), ReleaseId::Numeric(y)) => compare_numbers(*x, *y),
            (ReleaseId::NonNumeric(x), ReleaseId::NonNumeric(y)) => {
                let a = chars_of(x.as_str());
                let b = chars_of(y.as_str());
                compare_chars(a.as_slice(), b.as_slice())
            },
            (ReleaseId::Numeric(x), ReleaseId::NonNumeric(y)) => {
                let b = chars_of(y.as_str());
                compare_number_chars(*x, b.as_slice())
            },
            (ReleaseId::NonNumeric(x), ReleaseId::Numeric(y)) => {
                let a = chars_of(x.as_str());
                reverse(compare_number_chars(*y, a.as_slice()))
            },
        }
    }
}

impl PartialEq for ReleaseId {
    fn eq(&self, other: &ReleaseId) -> (r: bool) {
        match (self, other) {
            (ReleaseId::Numeric(x), ReleaseId::Numeric(y)) => *x == *y,
            (ReleaseId::NonNumeric(x), ReleaseId::NonNumeric(y)) => *x == *y,
            (ReleaseId::Numeric(n), ReleaseId::NonNumeric(s)) => reads_as_number(*n, s),
            (ReleaseId::NonNumeric(s), ReleaseId::Numeric(n)) => reads_as_number(*n, s),
        }
    }
}

impl vstd::std_specs::cmp::PartialEqSpecImpl for ReleaseId {
    open spec fn obeys_eq_spec() -> bool {
        true
    }

    open spec fn eq_spec(&self, other: &ReleaseId) -> bool {
        release_ids_equal(self@, other@)
    }
}

impl PartialOrd for ReleaseId {
    fn partial_cmp(&self, other: &ReleaseId) -> (r: Option<Ordering>) {
        Some(self.compare(other))
    }
}

impl vstd::std_specs::cmp::PartialOrdSpecImpl for ReleaseId {
    open spec fn obeys_partial_cmp_spec() -> bool {
        true
    }

    open spec fn partial_cmp_spec(&self, other: &ReleaseId) -> Option<Ordering> {
        Some(compare_release_ids(self@, other@))
    }
}

impl PreReleaseId {
    /// How this pre-release identifier compares with another.
    pub fn compare(&self, other: &PreReleaseId) -> (r: Ordering)
        ensures
            r == compare_pre_release_ids(self@, other@),
    {
        match (self, other) {
            (PreReleaseId::Numeric(x), PreReleaseId::Numeric(y)) => compare_numbers(*x, *y),
            (PreReleaseId::NonNumeric(x), PreReleaseId::NonNumeric(y)) => {
                let a = chars_of(x.as_str());
                let b = chars_of(y.as_str());
                compare_chars(a.as_slice(), b.as_slice())
            },
            (PreReleaseId::Numeric(_), PreReleaseId::NonNumeric(_)) => Ordering::Less,
            (PreReleaseId::NonNumeric(_), PreReleaseId::Numeric(_)) => Ordering::Greater,
        }
    }
}

impl PartialEq for PreReleaseId {
    fn eq(&self, other: &PreReleaseId) -> (r: bool) {
        match (self, other) {
            (PreReleaseId::Numeric(x), PreReleaseId::Numeric(y)) => *x == *y,
            (PreReleaseId::NonNumeric(x), PreReleaseId::NonNumeric(y)) => *x == *y,
            _ => false,
        }
    }
}

impl vstd::std_specs::cmp::PartialEqSpecImpl for PreReleaseId {
    open spec fn obeys_eq_spec() -> bool {
        true
    }

    open spec fn eq_spec(&self, other: &PreReleaseId) -> bool {
        self@ == other@
    }
}

impl PartialOrd for PreReleaseId {
    fn partial_cmp(&self, other: &PreReleaseId) -> (r: Option<Ordering>) {
        Some(self.compare(other))
    }
}

impl vstd::std_specs::cmp::PartialOrdSpecImpl for PreReleaseId {
    open spec fn obeys_partial_cmp_spec() -> bool {
        true
    }

    open spec fn partial_cmp_spec(&self, other: &PreReleaseId) -> Option<Ordering> {
        Some(compare_pre_release_ids(self@, other@))
    }
}

pub open spec fn release_views(ids: Seq<ReleaseId>) -> Seq<IdView> {
    ids.map_values(|r: ReleaseId| r@)
}

pub open spec fn pre_release_views(ids: Seq<PreReleaseId>) -> Seq<IdView> {
    ids.map_values(|r: PreReleaseId| r@)
}

/// Compares two releases, the shorter padded with zeroes.
fn compare_release_lists(a: &[ReleaseId], b: &[ReleaseId]) -> (r: Ordering)
    ensures
        r == compare_releases_from(release_views(a@), release_views(b@), 0),
{
    let ghost va = release_views(a@);
    let ghost vb = release_views(b@);
    let zero = ReleaseId::Numeric(0);
    let n = if a.len() >= b.len() {
        a.len()
    } else {
        b.len()
    };
    let mut i: usize = 0;
    while i < n
        invariant
            va == release_views(a@),
            vb == release_views(b@),
            zero@ == IdView::Numeric(0),
            n == longest(va, vb),
            i <= n,
            compare_releases_from(va, vb, 0) == compare_releases_from(va, vb, pos(i)),
        decreases n - i,
    {
        let x = if i < a.len() {
            &a[i]
        } else {
            &zero
        };
        let y = if i < b.len() {
            &b[i]
        } else {
            &zero
        };
        assert(x@ == release_at(va, pos(i)));
        assert(y@ == release_at(vb, pos(i)));
        let o = x.compare(y);
        match o {
            Ordering::Equal => {},
            _ => {
                return o;
            },
        }
        i = i + 1;
    }
    Ordering::Equal
}

/// Whether two releases are equal, the shorter padded with zeroes.
fn release_lists_equal(a: &[ReleaseId], b: &[ReleaseId]) -> (r: bool)
    ensures
        r == releases_equal_from(release_views(a@), release_views(b@), 0),
{
    let ghost va = release_views(a@);
    let ghost vb = release_views(b@);
    let zero = ReleaseId::Numeric(0);
    let n = if a.len() >= b.len() {
        a.len()
    } else {
        b.len()
    };
    let mut i: usize = 0;
    while i < n
        invariant
            va == release_views(a@),
            vb == release_views(b@),
            zero@ == IdView::Numeric(0),
            n == longest(va, vb),
            i <= n,
            releases_equal_from(va, vb, 0) == releases_equal_from(va, vb, pos(i)),
        decreases n - i,
    {
        let x = if i < a.len() {
            &a[i]
        } else {
            &zero
        };
        let y = if i < b.len() {
            &b[i]
        } else {
            &zero
        };
        assert(x@ == release_at(va, pos(i)));
        assert(y@ == release_at(vb, pos(i)));
        if !(*x == *y) {
            return false;
        }
        i = i + 1;
    }
    true
}

/// Compares two lists of pre-release identifiers lexicographically.
fn compare_pre_release_lists(a: &[PreReleaseId], b: &[PreReleaseId]) -> (r: Ordering)
    ensures
        r == compare_pre_releases(pre_release_views(a@), pre_release_views(b@)),
{
    let ghost va = pre_release_views(a@);
    let ghost vb = pre_release_views(b@);
    let mut i: usize = 0;
    assert(va.skip(0) =~= va);
    assert(vb.skip(0) =~= vb);
    while i < a.len() && i < b.len()
        invariant
            va == pre_release_views(a@),
            vb == pre_release_views(b@),
            i <= a.len(),
            i <= b.len(),
            compare_pre_releases(va, vb) == compare_pre_releases(va.skip(pos(i)), vb.skip(pos(i))),
        decreases a.len() - i,
    {
        assert(va.skip(pos(i))[0] == a[pos(i)]@);
        assert(vb.skip(pos(i))[0] == b[pos(i)]@);
        let o = a[i].compare(&b[i]);
        match o {
            Ordering::Equal => {},
            _ => {
                return o;
            },
        }
        assert(va.skip(pos(i)).drop_first() =~= va.skip(pos(i) + 1));
        assert(vb.skip(pos(i)).drop_first() =~= vb.skip(pos(i) + 1));
        i = i + 1;
    }
    if i < a.len() {
        Ordering::Greater
    } else if i < b.len() {
        Ordering::Less
    } else {
        Ordering::Equal
    }
}

/// Whether two lists of pre-release identifiers are the same.
fn pre_release_lists_equal(a: &[PreReleaseId], b: &[PreReleaseId]) -> (r: bool)
    ensures
        r == (pre_release_views(a@) == pre_release_views(b@)),
{
    let ghost va = pre_release_views(a@);
    let ghost vb = pre_release_views(b@);
    if a.len() != b.len() {
        assert(va.len() != vb.len());
        return false;
    }
    let mut i: usize = 0;
    while i < a.len()
        invariant
            va == pre_release_views(a@),
            vb == pre_release_views(b@),
            a.len() == b.len(),
            i <= a.len(),
            forall|k: int| 0 <= k < i ==> va[k] == vb[k],
        decreases a.len() - i,
    {
        if !(a[i] == b[i]) {
            assert(va[pos(i)] != vb[pos(i)]);
            return false;
        }
        i = i + 1;
    }
    assert(va =~= vb);
    true
}

impl Version {
    /// How this version compares with another.
    pub fn compare(&self, other: &Version) -> (r: Ordering)
        ensures
            r == compare_versions(self@, other@),
    {
        let r = compare_release_lists(self.release_ids.as_slice(), other.release_ids.as_slice());
        match r {
            Ordering::Equal => {
                let a = self.pre_release_ids.len();
                let b = other.pre_release_ids.len();
                if a == 0 && b > 0 {
                    Ordering::Greater
                } else if a > 0 && b == 0 {
                    Ordering::Less
                } else {
                    compare_pre_release_lists(
                        self.pre_release_ids.as_slice(),
                        other.pre_release_ids.as_slice(),
                    )
                }
            },
            _ => r,
        }
    }
}

impl PartialEq for Version {
    fn eq(&self, other: &Version) -> (r: bool) {
        release_lists_equal(self.release_ids.as_slice(), other.release_ids.as_slice())
            && pre_release_lists_equal(
            self.pre_release_ids.as_slice(),
            other.pre_release_ids.as_slice(),
        )
    }
}

impl vstd::std_specs::cmp::PartialEqSpecImpl for Version {
    open spec fn obeys_eq_spec() -> bool {
        true
    }

    open spec fn eq_spec(&self, other: &Version) -> bool {
        versions_equal(self@, other@)
    }
}

impl PartialOrd for Version {
    fn partial_cmp(&self, other: &Version) -> (r: Option<Ordering>) {
        Some(self.compare(other))
    }
}

impl vstd::std_specs::cmp::PartialOrdSpecImpl for Version {
    open spec fn obeys_partial_cmp_spec() -> bool {
        true
    }

    open spec fn partial_cmp_spec(&self, other: &Version) -> Option<Ordering> {
        Some(compare_versions(self@, other@))
    }
}

proof fn lemma_compare_text_antisymmetric(a: Seq<char>, b: Seq<char>)
    ensures
        compare_text(a, b) == reversed(compare_text(b, a)),
    decreases a.len(),
{
    if a.len() > 0 && b.len() > 0 && a[0] == b[0] {
        lemma_compare_text_antisymmetric(a.drop_first(), b.drop_first());
    }
}

proof fn lemma_same_head_and_tail<T>(a: Seq<T>, b: Seq<T>)
    requires
        a.len() > 0,
        b.len() > 0,
        a[0] == b[0],
        a.drop_first() == b.drop_first(),
    ensures
        a == b,
{
    assert(a.drop_first().len() == a.len() - 1);
    assert(b.drop_first().len() == b.len() - 1);
    assert(a.len() == b.len());
    assert forall|i: int| 0 <= i < a.len() implies a[i] == b[i] by {
        if i > 0 {
            assert(a[i] == a.drop_first()[i - 1]);
            assert(b[i] == b.drop_first()[i - 1]);
        }
    }
    assert(a =~= b);
}

proof fn lemma_compare_text_equal(a: Seq<char>, b: Seq<char>)
    ensures
        (compare_text(a, b) == Ordering::Equal) == (a == b),
    decreases a.len(),
{
    if a.len() == 0 || b.len() == 0 {
        if a.len() == 0 && b.len() == 0 {
            assert(a =~= b);
        }
    } else if a[0] == b[0] {
        lemma_compare_text_equal(a.drop_first(), b.drop_first());
        if a.drop_first() == b.drop_first() {
            lemma_same_head_and_tail(a, b);
        }
    }
}

proof fn lemma_compare_release_ids_antisymmetric(a: IdView, b: IdView)
    ensures
        compare_release_ids(a, b) == reversed(compare_release_ids(b, a)),
{
    match (a, b) {
        (IdView::NonNumeric(x), IdView::NonNumeric(y)) => lemma_compare_text_antisymmetric(x, y),
        _ => {},
    }
}

proof fn lemma_compare_pre_release_ids_antisymmetric(a: IdView, b: IdView)
    ensures
        compare_pre_release_ids(a, b) == reversed(compare_pre_release_ids(b, a)),
{
    match (a, b) {
        (IdView::NonNumeric(x), IdView::NonNumeric(y)) => lemma_compare_text_antisymmetric(x, y),
        _ => {},
    }
}

proof fn lemma_compare_releases_antisymmetric(a: Seq<IdView>, b: Seq<IdView>, i: int)
    ensures
        compare_releases_from(a, b, i) == reversed(compare_releases_from(b, a, i)),
    decreases longest(a, b) - i,
{
    if 0 <= i < longest(a, b) {
        lemma_compare_release_ids_antisymmetric(release_at(a, i), release_at(b, i));
        lemma_compare_releases_antisymmetric(a, b, i + 1);
    }
}

proof fn lemma_compare_pre_releases_antisymmetric(a: Seq<IdView>, b: Seq<IdView>)
    ensures
        compare_pre_releases(a, b) == reversed(compare_pre_releases(b, a)),
    decreases a.len(),
{
    if a.len() > 0 && b.len() > 0 {
        lemma_compare_pre_release_ids_antisymmetric(a[0], b[0]);
        lemma_compare_pre_releases_antisymmetric(a.drop_first(), b.drop_first());
    }
}

/// Comparing two versions one way round gives the reverse of comparing them
/// the other way round: `a < b` exactly when `b > a`, and they compare equal
/// either both ways or neither.
pub proof fn lemma_compare_versions_antisymmetric(a: VersionView, b: VersionView)
    ensures
        compare_versions(a, b) == reversed(compare_versions(b, a)),
{
    lemma_compare_releases_antisymmetric(a.release, b.release, 0);
    lemma_compare_pre_releases_antisymmetric(a.pre_release, b.pre_release);
}

proof fn lemma_compare_releases_reflexive(a: Seq<IdView>, i: int)
    ensures
        compare_releases_from(a, a, i) == Ordering::Equal,
        releases_equal_from(a, a, i),
    decreases longest(a, a) - i,
{
    if 0 <= i < longest(a, a) {
        match release_at(a, i) {
            IdView::NonNumeric(x) => lemma_compare_text_equal(x, x),
            _ => {},
        }
        lemma_compare_releases_reflexive(a, i + 1);
    }
}

proof fn lemma_compare_pre_releases_equal(a: Seq<IdView>, b: Seq<IdView>)
    ensures
        (compare_pre_releases(a, b) == Ordering::Equal) == (a == b),
    decreases a.len(),
{
    if a.len() == 0 || b.len() == 0 {
        if a.len() == 0 && b.len() == 0 {
            assert(a =~= b);
        }
    } else {
        match (a[0], b[0]) {
            (IdView::NonNumeric(x), IdView::NonNumeric(y)) => lemma_compare_text_equal(x, y),
            _ => {},
        }
        lemma_compare_pre_releases_equal(a.drop_first(), b.drop_first());
        if a.drop_first() == b.drop_first() && a[0] == b[0] {
            lemma_same_head_and_tail(a, b);
        }
    }
}

/// Every version compares equal to itself and is equal to itself.
pub proof fn lemma_versions_reflexive(a: VersionView)
    ensures
        compare_versions(a, a) == Ordering::Equal,
        versions_equal(a, a),
{
    lemma_compare_releases_reflexive(a.release, 0);
    lemma_compare_pre_releases_equal(a.pre_release, a.pre_release);
}

proof fn lemma_releases_equal_symmetric(a: Seq<IdView>, b: Seq<IdView>, i: int)
    ensures
        releases_equal_from(a, b, i) == releases_equal_from(b, a, i),
    decreases longest(a, b) - i,
{
    if 0 <= i < longest(a, b) {
        lemma_releases_equal_symmetric(a, b, i + 1);
    }
}

/// Version equality is symmetric.
pub proof fn lemma_versions_equal_symmetric(a: VersionView, b: VersionView)
    ensures
        versions_equal(a, b) == versions_equal(b, a),
{
    lemma_releases_equal_symmetric(a.release, b.release, 0);
}

/// Whether all the identifiers of a version are as strings give them.
pub open spec fn well_formed_version(v: VersionView) -> bool {
    &&& forall|i: int| 0 <= i < v.release.len() ==> well_formed_id(#[trigger] v.release[i])
    &&& forall|i: int| 0 <= i < v.pre_release.len() ==> well_formed_id(#[trigger] v.pre_release[i])
}

proof fn lemma_leading_digits_bound(s: Seq<char>)
    ensures
        leading_digits(s) <= s.len(),
        forall|k: int| 0 <= k < leading_digits(s) ==> is_digit(#[trigger] s[k]),
    decreases s.len(),
{
    if s.len() > 0 && is_digit(s[0]) {
        lemma_leading_digits_bound(s.drop_first());
        assert forall|k: int| 0 <= k < leading_digits(s) implies is_digit(#[trigger] s[k]) by {
            if k > 0 {
                assert(s[k] == s.drop_first()[k - 1]);
            }
        }
    }
}

proof fn lemma_trim_of_digits(s: Seq<char>)
    requires
        s.len() > 0,
        is_digit(s[0]),
        is_digit(s.last()),
    ensures
        crate::text::trim(s) == s,
{
    assert(crate::text::trim_start(s) == s);
}

proof fn lemma_all_leading_digits(s: Seq<char>)
    requires
        leading_digits(s) == s.len(),
    ensures
        s.take(leading_digits(s) as int) == s,
        s.len() > 0 ==> is_digit(s[0]) && is_digit(s.last()),
{
    lemma_leading_digits_bound(s);
    assert(s.take(leading_digits(s) as int) =~= s);
}

proof fn lemma_number_text_never_equal(n: u32, s: Seq<char>)
    requires
        well_formed_id(IdView::NonNumeric(s)),
    ensures
        compare_number_text(n, s) != Ordering::Equal,
{
    lemma_leading_digits_bound(s);
    match leading_number(s) {
        (Some(m), more) => {
            if !more {
                lemma_all_leading_digits(s);
                lemma_trim_of_digits(s);
            }
        },
        _ => {},
    }
}

proof fn lemma_release_ids_equal(a: IdView, b: IdView)
    requires
        well_formed_id(a),
        well_formed_id(b),
    ensures
        release_ids_equal(a, b) == (compare_release_ids(a, b) == Ordering::Equal),
{
    match (a, b) {
        (IdView::NonNumeric(x), IdView::NonNumeric(y)) => lemma_compare_text_equal(x, y),
        (IdView::Numeric(x), IdView::NonNumeric(y)) => lemma_number_text_never_equal(x, y),
        (IdView::NonNumeric(x), IdView::Numeric(y)) => lemma_number_text_never_equal(y, x),
        _ => {},
    }
}

proof fn lemma_releases_equal_agree(a: Seq<IdView>, b: Seq<IdView>, i: int)
    requires
        forall|k: int| 0 <= k < a.len() ==> well_formed_id(#[trigger] a[k]),
        forall|k: int| 0 <= k < b.len() ==> well_formed_id(#[trigger] b[k]),
    ensures
        releases_equal_from(a, b, i) == (compare_releases_from(a, b, i) == Ordering::Equal),
    decreases longest(a, b) - i,
{
    if 0 <= i < longest(a, b) {
        lemma_release_ids_equal(release_at(a, i), release_at(b, i));
        lemma_releases_equal_agree(a, b, i + 1);
    }
}

/// For versions whose identifiers are as strings give them, two versions are
/// equal exactly when they compare as equal.
pub proof fn lemma_equal_iff_compare_equal(a: VersionView, b: VersionView)
    requires
        well_formed_version(a),
        well_formed_version(b),
    ensures
        versions_equal(a, b) == (compare_versions(a, b) == Ordering::Equal),
{
    lemma_releases_equal_agree(a.release, b.release, 0);
    lemma_compare_pre_releases_equal(a.pre_release, b.pre_release);
}

impl Version {
    /// The version with the four given release numbers and no pre-release.
    pub fn from_numbers(a: u32, b: u32, c: u32, d: u32) -> (r: Version)
        ensures
            r@ == (VersionView {
                release: seq![IdView::Numeric(a), IdView::Numeric(b), IdView::Numeric(c), IdView::Numeric(d)],
                pre_release: Seq::empty(),
            }),
    {
        let mut release_ids: Vec<ReleaseId> = Vec::new();
        release_ids.push(ReleaseId::Numeric(a));
        release_ids.push(ReleaseId::Numeric(b));
        release_ids.push(ReleaseId::Numeric(c));
        release_ids.push(ReleaseId::Numeric(d));
        let r = Version { release_ids, pre_release_ids: Vec::new() };
        assert(r@.release =~= seq![IdView::Numeric(a), IdView::Numeric(b), IdView::Numeric(c), IdView::Numeric(d)]);
        assert(r@.pre_release =~= Seq::<IdView>::empty());
        r
    }
}

/// The version that reading a Portable Executable's version fields gives:
/// the file version, or the product version where `product` is set, or
/// nothing where the file has no version resource; errors name the path.
pub open spec fn pe_version(path: Seq<char>, file: Seq<u8>, product: bool) -> Result<
    Option<VersionView>,
    ErrorView,
> {
    match version_resource(file) {
        Err(e) => Err(ErrorView::PeParsingError(path, e)),
        Ok(None) => Ok(None),
        Ok(Some(d)) => match (if product {
            product_version(d)
        } else {
            file_version(d)
        }) {
            Err(e) => Err(ErrorView::PeParsingError(path, e)),
            Ok(v) => Ok(v),
        },
    }
}

pub open spec fn version_result_view(r: Result<Option<Version>, Error>) -> Result<
    Option<VersionView>,
    ErrorView,
> {
    match r {
        Ok(Some(v)) => Ok(Some(v@)),
        Ok(None) => Ok(None),
        Err(e) => Err(e@),
    }
}

fn read_pe_version(file_path: &str, file: &[u8], product: bool) -> (r: Result<
    Option<Version>,
    Error,
>)
    ensures
        version_result_view(r) == pe_version(file_path@, file@, product),
{
    let data = match pe::read_version_resource_data(file) {
        Err(e) => {
            return Err(Error::PeParsingError(crate::text::string_from_str(file_path), e));
        },
        Ok(None) => {
            return Ok(None);
        },
        Ok(Some(d)) => d,
    };
    let read = if product {
        pe::read_product_version(data.as_slice())
    } else {
        pe::read_file_version(data.as_slice())
    };
    match read {
        Err(e) => Err(Error::PeParsingError(crate::text::string_from_str(file_path), e)),
        Ok(v) => Ok(v),
    }
}

impl Version {
    /// The file version of a Portable Executable, read from the file's
    /// contents; `file_path` names the file in errors.
    pub fn read_file_version(file_path: &str, file: &[u8]) -> (r: Result<Option<Version>, Error>)
        ensures
            version_result_view(r) == pe_version(file_path@, file@, false),
    {
        read_pe_version(file_path, file, false)
    }

    /// The product version of a Portable Executable, read from the file's
    /// contents; `file_path` names the file in errors.
    pub fn read_product_version(file_path: &str, file: &[u8]) -> (r: Result<
        Option<Version>,
        Error,
    >)
        ensures
            version_result_view(r) == pe_version(file_path@, file@, true),
    {
        read_pe_version(file_path, file, true)
    }

    /// Whether the file's contents can be read as a Portable Executable up to
    /// its version resource.
    pub fn is_readable(file: &[u8]) -> (r: bool)
        ensures
            r == (version_resource(file@) is Ok),
    {
        pe::read_version_resource_data(file).is_ok()
    }
}

} // verus!