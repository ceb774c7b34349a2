//! Evaluating a function against a state and the file system.
//!
//! The library does not touch the file system itself. Evaluating a function
//! is a conversation: given the answers so far, `Function::eval` either asks
//! one more question of the file system or gives the result. The caller
//! answers each question and calls again with the answers extended.
use vstd::prelude::*;

use core::cmp::Ordering;

use super::crc::{checksum, crc32};
use super::path::{
    extension_of, has_unghosted_plugin_extension, lemma_last_dot_at, same_ignoring_ascii_case,
    split_name, file_name_of, has_plugin_extension, has_plugin_file_extension, joined, normalise_file_name,
    normalised_name, path_file_name, path_join, resolution, resolution_candidates,
    resolve_candidates, resolve_with, string_seq,
};
use super::plugin::{
    header_description, header_is_master, plugin_description, plugin_game, plugin_game_of,
    plugin_is_master,
};
use super::version::pe::version_resource;
use super::version::{
    compare_versions, pe_version, version_of, version_result_view, versions_equal, Version,
    VersionView,
};
use super::{ComparisonOperator, Function, FunctionView};
use crate::error::{Error, ErrorView};
use crate::pattern::{regex_first_group, regex_is_match};
use crate::text::{lowercase, string_from_str, to_lowercase};
use crate::{cached_result, contains_string, string_views, GameType, State, StateView};

verus! {

broadcast use vstd::string::group_string_axioms;

/// A question about the file system.
#[derive(Debug)]
pub enum Query {
    /// Whether each path exists.
    Exist(Vec<String>),
    /// Whether the path is a directory.
    IsDir(String),
    /// Whether the path is a file.
    IsFile(String),
    /// Whether the directory's entries can be read.
    CanReadDir(String),
    /// Whether the file can be opened for reading.
    CanOpen(String),
    /// The size of the file, where its metadata can be read.
    Size(String),
    /// The contents of the file, or the message of the error that stopped
    /// reading it.
    Read(String),
    /// The entries of each directory.
    List(Vec<String>),
}

/// What the entries of a directory are, as far as they could be read.
#[derive(Debug)]
pub enum Listing {
    /// The directory could not be opened.
    Unreadable,
    /// The names of the entries read, in order (none where a name is not
    /// valid Unicode), and the message of the error that stopped the reading,
    /// if one did.
    Entries(Vec<Option<String>>, Option<String>),
}

/// An answer to a question about the file system.
#[derive(Debug)]
pub enum Answer {
    Flags(Vec<bool>),
    Flag(bool),
    Size(Option<u64>),
    Contents(Result<Vec<u8>, String>),
    Listings(Vec<Listing>),
}

/// What evaluating a function does next: ask a question, or give the result.
#[derive(Debug)]
pub enum Step {
    Ask(Query),
    Done(Result<bool, Error>),
}

pub enum QueryView {
    Exist(Seq<Seq<char>>),
    IsDir(Seq<char>),
    IsFile(Seq<char>),
    CanReadDir(Seq<char>),
    CanOpen(Seq<char>),
    Size(Seq<char>),
    Read(Seq<char>),
    List(Seq<Seq<char>>),
}

pub enum ListingView {
    Unreadable,
    Entries(Seq<Option<Seq<char>>>, Option<Seq<char>>),
}

pub enum AnswerView {
    Flags(Seq<bool>),
    Flag(bool),
    Size(Option<u64>),
    Contents(Result<Seq<u8>, Seq<char>>),
    Listings(Seq<ListingView>),
}

pub enum StepView {
    Ask(QueryView),
    Done(Result<bool, ErrorView>),
}

pub open spec fn option_view(o: Option<String>) -> Option<Seq<char>> {
    match o {
        Some(s) => Some(s@),
        None => None,
    }
}

impl View for Query {
    type V = QueryView;

    open spec fn view(&self) -> QueryView {
        match self {
            Query::Exist(v) => QueryView::Exist(string_seq(v@)),
            Query::IsDir(p) => QueryView::IsDir(p@),
            Query::IsFile(p) => QueryView::IsFile(p@),
            Query::CanReadDir(p) => QueryView::CanReadDir(p@),
            Query::CanOpen(p) => QueryView::CanOpen(p@),
            Query::Size(p) => QueryView::Size(p@),
            Query::Read(p) => QueryView::Read(p@),
            Query::List(v) => QueryView::List(string_seq(v@)),
        }
    }
}

impl View for Listing {
    type V = ListingView;

    open spec fn view(&self) -> ListingView {
        match self {
            Listing::Unreadable => ListingView::Unreadable,
            Listing::Entries(names, e) => ListingView::Entries(
                names@.map_values(|n: Option<String>| option_view(n)),
                option_view(*e),
            ),
        }
    }
}

impl View for Answer {
    type V = AnswerView;

    open spec fn view(&self) -> AnswerView {
        match self {
            Answer::Flags(v) => AnswerView::Flags(v@),
            Answer::Flag(b) => AnswerView::Flag(*b),
            Answer::Size(s) => AnswerView::Size(*s),
            Answer::Contents(Ok(b)) => AnswerView::Contents(Ok(b@)),
            Answer::Contents(Err(m)) => AnswerView::Contents(Err(m@)),
            Answer::Listings(v) => AnswerView::Listings(v@.map_values(|l: Listing| l@)),
        }
    }
}

impl View for Step {
    type V = StepView;

    open spec fn view(&self) -> StepView {
        match self {
            Step::Ask(q) => StepView::Ask(q@),
            Step::Done(Ok(b)) => StepView::Done(Ok(*b)),
            Step::Done(Err(e)) => StepView::Done(Err(e@)),
        }
    }
}

pub open spec fn answer_views(a: Seq<Answer>) -> Seq<AnswerView> {
    a.map_values(|x: Answer| x@)
}

pub open spec fn flag_at(a: Seq<AnswerView>, k: int) -> Option<bool> {
    if 0 <= k < a.len() {
        match a[k] {
            AnswerView::Flag(b) => Some(b),
            _ => None,
        }
    } else {
        None
    }
}

pub open spec fn size_at(a: Seq<AnswerView>, k: int) -> Option<Option<u64>> {
    if 0 <= k < a.len() {
        match a[k] {
            AnswerView::Size(s) => Some(s),
            _ => None,
        }
    } else {
        None
    }
}

pub open spec fn contents_at(a: Seq<AnswerView>, k: int) -> Option<Result<Seq<u8>, Seq<char>>> {
    if 0 <= k < a.len() {
        match a[k] {
            AnswerView::Contents(c) => Some(c),
            _ => None,
        }
    } else {
        None
    }
}

pub open spec fn flags_at(a: Seq<AnswerView>, k: int, n: nat) -> Option<Seq<bool>> {
    if 0 <= k < a.len() {
        match a[k] {
            AnswerView::Flags(f) => if f.len() == n {
                Some(f)
            } else {
                None
            },
            _ => None,
        }
    } else {
        None
    }
}

pub open spec fn listings_at(a: Seq<AnswerView>, k: int, n: nat) -> Option<Seq<ListingView>> {
    if 0 <= k < a.len() {
        match a[k] {
            AnswerView::Listings(l) => if l.len() == n {
                Some(l)
            } else {
                None
            },
            _ => None,
        }
    } else {
        None
    }
}

/// The path a relative path resolves to and whether it exists, once the
/// first answer tells which candidates exist; else the question to ask.
pub open spec fn resolved(s: StateView, path: Seq<char>, a: Seq<AnswerView>) -> Result<
    (Seq<char>, bool),
    QueryView,
> {
    let c = resolution_candidates(s, path);
    match flags_at(a, 0, c.len()) {
        Some(f) => Ok(resolution(s, path, f)),
        None => Err(QueryView::Exist(c)),
    }
}

/// What a missing version compares as: less than, and not equal to, any
/// given version.
pub open spec fn missing_version_result(c: ComparisonOperator) -> bool {
    c == ComparisonOperator::NotEqual || c == ComparisonOperator::LessThan || c
        == ComparisonOperator::LessThanOrEqual
}

/// Whether an actual version stands in the given relation to a given one.
pub open spec fn compares(c: ComparisonOperator, actual: VersionView, given: VersionView) -> bool {
    match c {
        ComparisonOperator::Equal => versions_equal(actual, given),
        ComparisonOperator::NotEqual => !versions_equal(actual, given),
        ComparisonOperator::LessThan => compare_versions(actual, given) == Ordering::Less,
        ComparisonOperator::GreaterThan => compare_versions(actual, given) == Ordering::Greater,
        ComparisonOperator::LessThanOrEqual => compare_versions(actual, given)
            != Ordering::Greater,
        ComparisonOperator::GreaterThanOrEqual => compare_versions(actual, given)
            != Ordering::Less,
    }
}

/// The directories whose entries a function over a parent path looks at:
/// the parent path in each additional data folder, then in the data folder.
pub open spec fn listing_dirs(s: StateView, parent: Seq<char>) -> Seq<Seq<char>> {
    s.additional_data_paths.map_values(|d: Seq<char>| joined(d, parent)) + seq![
        joined(s.data_path, parent),
    ]
}

/// Whether a directory entry counts for a function over directory entries:
/// for a file regex or `many`, the regex matches the entry's name without a
/// ghost extension; for a filename version, the version captured from the
/// name stands in the given relation to the given version.
pub open spec fn entry_counts(f: FunctionView, game: GameType, name: Seq<char>) -> bool {
    match f {
        FunctionView::FileRegex(_, r) => regex_is_match(r, true, normalised_name(game, name)),
        FunctionView::Many(_, r) => regex_is_match(r, true, normalised_name(game, name)),
        FunctionView::FilenameVersion(_, r, v, c) => match regex_first_group(r, true, name) {
            Some(g) => compares(c, version_of(g), version_of(v)),
            None => false,
        },
        _ => false,
    }
}

/// How many entries must count for the function to be true.
pub open spec fn entries_needed(f: FunctionView) -> nat {
    if f is Many {
        2
    } else {
        1
    }
}

/// The result of going through the directories from the `li`th on, `found`
/// entries having counted so far: true once enough count, false when the
/// directories run out. A directory that cannot be opened is passed over.
pub open spec fn scan_listings(
    f: FunctionView,
    game: GameType,
    parent: Seq<char>,
    ls: Seq<ListingView>,
    li: int,
    found: nat,
) -> Result<bool, ErrorView>
    decreases ls.len() - li, 1int, 0int,
{
    if li < 0 || li >= ls.len() {
        Ok(false)
    } else {
        match ls[li] {
            ListingView::Unreadable => scan_listings(f, game, parent, ls, li + 1, found),
            ListingView::Entries(names, e) => scan_entries(
                f,
                game,
                parent,
                ls,
                li,
                names,
                e,
                0,
                found,
            ),
        }
    }
}

/// The result of going through the entries of the `li`th directory from the
/// `j`th on; an error that stopped reading the directory is an error of the
/// parent path.
pub open spec fn scan_entries(
    f: FunctionView,
    game: GameType,
    parent: Seq<char>,
    ls: Seq<ListingView>,
    li: int,
    names: Seq<Option<Seq<char>>>,
    e: Option<Seq<char>>,
    j: int,
    found: nat,
) -> Result<bool, ErrorView>
    decreases ls.len() - li, 0int, names.len() - j,
{
    if j < 0 || j >= names.len() {
        match e {
            Some(m) => Err(ErrorView::IoError(parent, m)),
            None => if li < ls.len() {
                scan_listings(f, game, parent, ls, li + 1, found)
            } else {
                Ok(false)
            },
        }
    } else {
        match names[j] {
            Some(n) => if entry_counts(f, game, n) {
                if found + 1 >= entries_needed(f) {
                    Ok(true)
                } else {
                    scan_entries(f, game, parent, ls, li, names, e, j + 1, found + 1)
                }
            } else {
                scan_entries(f, game, parent, ls, li, names, e, j + 1, found)
            },
            None => scan_entries(f, game, parent, ls, li, names, e, j + 1, found),
        }
    }
}

/// The step of a function over the entries of a parent path.
pub open spec fn entries_step(
    f: FunctionView,
    s: StateView,
    parent: Seq<char>,
    a: Seq<AnswerView>,
) -> StepView {
    let dirs = listing_dirs(s, parent);
    match listings_at(a, 0, dirs.len()) {
        Some(ls) => StepView::Done(scan_listings(f, s.game_type, parent, ls, 0, 0)),
        None => StepView::Ask(QueryView::List(dirs)),
    }
}

/// The version of a file in the resolved path, given the answers that follow
/// the resolution: nothing where the path is not a file; for a plugin, the
/// version recorded in the state, if any; for another file, the version
/// fields of the executable.
pub open spec fn file_version_step(s: StateView, rp: Seq<char>, a: Seq<AnswerView>, product: bool) -> Result<
    Result<Option<VersionView>, ErrorView>,
    QueryView,
> {
    match flag_at(a, 1) {
        None => Err(QueryView::IsFile(rp)),
        Some(false) => Ok(Ok(None)),
        Some(true) => {
            let recorded = match file_name_of(rp) {
                Some(n) => if !product && s.plugin_versions.dom().contains(lowercase(n)) {
                    Some(s.plugin_versions[lowercase(n)])
                } else {
                    None
                },
                None => None,
            };
            match recorded {
                Some(v) => Ok(Ok(Some(version_of(v)))),
                None => if !product && has_plugin_extension(s.game_type, rp) {
                    Ok(Ok(None))
                } else {
                    match contents_at(a, 2) {
                        None => Err(QueryView::Read(rp)),
                        Some(Err(m)) => Ok(Err(ErrorView::IoError(rp, m))),
                        Some(Ok(b)) => Ok(pe_version(rp, b, product)),
                    }
                },
            }
        },
    }
}

/// The result of comparing a version read as `file_version_step` reads it.
pub open spec fn version_step(
    s: StateView,
    path: Seq<char>,
    given: Seq<char>,
    c: ComparisonOperator,
    a: Seq<AnswerView>,
    product: bool,
) -> StepView {
    match resolved(s, path, a) {
        Err(q) => StepView::Ask(q),
        Ok((rp, _)) => match file_version_step(s, rp, a, product) {
            Err(q) => StepView::Ask(q),
            Ok(Err(e)) => StepView::Done(Err(e)),
            Ok(Ok(None)) => StepView::Done(Ok(missing_version_result(c))),
            Ok(Ok(Some(v))) => StepView::Done(Ok(compares(c, v, version_of(given)))),
        },
    }
}

/// The checksum computed from the file's contents, where the checksum was
/// not cached and the file could be read.
pub open spec fn computed_crc(s: StateView, path: Seq<char>, a: Seq<AnswerView>) -> Option<u32> {
    if s.crc_cache.dom().contains(lowercase(path)) {
        None
    } else {
        match resolved(s, path, a) {
            Ok(_) => match flag_at(a, 1) {
                Some(true) => match contents_at(a, 2) {
                    Some(Ok(b)) => Some(crc32(b)),
                    _ => None,
                },
                _ => None,
            },
            Err(_) => None,
        }
    }
}

/// The step of a checksum function: the cached checksum of the path where
/// there is one, else that of the resolved file's contents; a path that is
/// not a file does not match.
pub open spec fn checksum_step(s: StateView, path: Seq<char>, crc: u32, a: Seq<AnswerView>) -> StepView {
    if s.crc_cache.dom().contains(lowercase(path)) {
        StepView::Done(Ok(s.crc_cache[lowercase(path)] == crc))
    } else {
        match resolved(s, path, a) {
            Err(q) => StepView::Ask(q),
            Ok((rp, _)) => match flag_at(a, 1) {
                None => StepView::Ask(QueryView::IsFile(rp)),
                Some(false) => StepView::Done(Ok(false)),
                Some(true) => match contents_at(a, 2) {
                    None => StepView::Ask(QueryView::Read(rp)),
                    Some(Err(m)) => StepView::Done(Err(ErrorView::IoError(path, m))),
                    Some(Ok(b)) => StepView::Done(Ok(crc32(b) == crc)),
                },
            },
        }
    }
}

/// The step of a function that reads the resolved file's contents and turns
/// them into a result; a file that cannot be read gives false.
pub open spec fn contents_step(f: FunctionView, s: StateView, path: Seq<char>, a: Seq<AnswerView>) -> StepView {
    match resolved(s, path, a) {
        Err(q) => StepView::Ask(q),
        Ok((rp, _)) => match contents_at(a, 1) {
            None => StepView::Ask(QueryView::Read(rp)),
            Some(Err(_)) => StepView::Done(Ok(false)),
            Some(Ok(b)) => StepView::Done(Ok(contents_result(f, s, rp, b))),
        },
    }
}

pub open spec fn contents_result(f: FunctionView, s: StateView, rp: Seq<char>, b: Seq<u8>) -> bool {
    match f {
        FunctionView::IsExecutable(_) => version_resource(b) is Ok,
        FunctionView::IsMaster(_) => header_is_master(plugin_game_of(s.game_type), rp, b) == Some(
            true,
        ),
        FunctionView::DescriptionContains(_, r) => match header_description(
            plugin_game_of(s.game_type),
            rp,
            b,
        ) {
            Some(Some(d)) => regex_is_match(r, true, d),
            _ => false,
        },
        _ => false,
    }
}

/// What evaluating a function does next, given the answers so far, before
/// any cached result is looked at.
pub open spec fn outcome(f: FunctionView, s: StateView, a: Seq<AnswerView>) -> StepView {
    match f {
        FunctionView::FilePath(p) => match resolved(s, p, a) {
            Err(q) => StepView::Ask(q),
            Ok((_, exists)) => StepView::Done(Ok(exists)),
        },
        FunctionView::FileRegex(p, _) => entries_step(f, s, p, a),
        FunctionView::FileSize(p, size) => match resolved(s, p, a) {
            Err(q) => StepView::Ask(q),
            Ok((rp, _)) => match size_at(a, 1) {
                None => StepView::Ask(QueryView::Size(rp)),
                Some(Some(n)) => StepView::Done(Ok(n == size)),
                Some(None) => StepView::Done(Ok(false)),
            },
        },
        FunctionView::Readable(p) => match resolved(s, p, a) {
            Err(q) => StepView::Ask(q),
            Ok((rp, _)) => match flag_at(a, 1) {
                None => StepView::Ask(QueryView::IsDir(rp)),
                Some(dir) => match flag_at(a, 2) {
                    None => StepView::Ask(
                        if dir {
                            QueryView::CanReadDir(rp)
                        } else {
                            QueryView::CanOpen(rp)
                        },
                    ),
                    Some(ok) => StepView::Done(Ok(ok)),
                },
            },
        },
        FunctionView::IsExecutable(p) => contents_step(f, s, p, a),
        FunctionView::ActivePath(p) => StepView::Done(Ok(s.active_plugins.contains(lowercase(p)))),
        FunctionView::ActiveRegex(r) => StepView::Done(
            Ok(exists|x: Seq<char>| s.active_plugins.contains(x) && regex_is_match(r, true, x)),
        ),
        FunctionView::IsMaster(p) => contents_step(f, s, p, a),
        FunctionView::Many(p, _) => entries_step(f, s, p, a),
        FunctionView::ManyActive(r) => StepView::Done(
            Ok(
                exists|x: Seq<char>, y: Seq<char>|
                    x != y && s.active_plugins.contains(x) && s.active_plugins.contains(y)
                        && regex_is_match(r, true, x) && regex_is_match(r, true, y),
            ),
        ),
        FunctionView::Checksum(p, crc) => checksum_step(s, p, crc, a),
        FunctionView::Version(p, v, c) => version_step(s, p, v, c, a, false),
        FunctionView::ProductVersion(p, v, c) => version_step(s, p, v, c, a, true),
        FunctionView::FilenameVersion(p, _, _, _) => entries_step(f, s, p, a),
        FunctionView::DescriptionContains(p, _) => contents_step(f, s, p, a),
    }
}

/// How many of the entries from the `j`th on count for a function.
pub open spec fn names_counted_from(
    f: FunctionView,
    game: GameType,
    names: Seq<Option<Seq<char>>>,
    j: int,
) -> nat
    decreases names.len() - j,
{
    if j < 0 || j >= names.len() {
        0
    } else {
        let here: nat = match names[j] {
            Some(n) => if entry_counts(f, game, n) {
                1
            } else {
                0
            },
            None => 0,
        };
        here + names_counted_from(f, game, names, j + 1)
    }
}

/// How many entries of the directories from the `li`th on count for a
/// function, all directories taken together.
pub open spec fn listings_counted_from(
    f: FunctionView,
    game: GameType,
    ls: Seq<ListingView>,
    li: int,
) -> nat
    decreases ls.len() - li,
{
    if li < 0 || li >= ls.len() {
        0
    } else {
        let here: nat = match ls[li] {
            ListingView::Entries(names, _) => names_counted_from(f, game, names, 0),
            ListingView::Unreadable => 0,
        };
        here + listings_counted_from(f, game, ls, li + 1)
    }
}

/// Whether every directory was either read to its end or could not be
/// opened at all.
pub open spec fn read_without_errors(ls: Seq<ListingView>) -> bool {
    forall|i: int| 0 <= i < ls.len() ==> !(#[trigger] ls[i] matches ListingView::Entries(_, Some(_)))
}

proof fn lemma_scan_entries_counts(
    f: FunctionView,
    game: GameType,
    parent: Seq<char>,
    ls: Seq<ListingView>,
    li: int,
    names: Seq<Option<Seq<char>>>,
    j: int,
    found: nat,
)
    requires
        0 <= li < ls.len(),
        ls[li] == ListingView::Entries(names, None),
        read_without_errors(ls),
        0 <= j <= names.len(),
        found < entries_needed(f),
    ensures
        scan_entries(f, game, parent, ls, li, names, None, j, found) == Ok::<bool, ErrorView>(
            found + names_counted_from(f, game, names, j) + listings_counted_from(f, game, ls, li + 1)
                >= entries_needed(f),
        ),
    decreases ls.len() - li, 0int, names.len() - j,
{
    if j >= names.len() {
        lemma_scan_listings_counts(f, game, parent, ls, li + 1, found);
    } else {
        match names[j] {
            Some(n) => if entry_counts(f, game, n) {
                if found + 1 < entries_needed(f) {
                    lemma_scan_entries_counts(f, game, parent, ls, li, names, j + 1, found + 1);
                }
            } else {
                lemma_scan_entries_counts(f, game, parent, ls, li, names, j + 1, found);
            },
            None => lemma_scan_entries_counts(f, game, parent, ls, li, names, j + 1, found),
        }
    }
}

proof fn lemma_scan_listings_counts(
    f: FunctionView,
    game: GameType,
    parent: Seq<char>,
    ls: Seq<ListingView>,
    li: int,
    found: nat,
)
    requires
        0 <= li <= ls.len(),
        read_without_errors(ls),
        found < entries_needed(f),
    ensures
        scan_listings(f, game, parent, ls, li, found) == Ok::<bool, ErrorView>(
            found + listings_counted_from(f, game, ls, li) >= entries_needed(f),
        ),
    decreases ls.len() - li, 1int, 0int,
{
    if li < ls.len() {
        match ls[li] {
            ListingView::Unreadable => lemma_scan_listings_counts(f, game, parent, ls, li + 1, found),
            ListingView::Entries(names, e) => {
                assert(e is None);
                lemma_scan_entries_counts(f, game, parent, ls, li, names, 0, found);
            },
        }
    }
}

/// A function over the entries of a parent path (`file` with a regex,
/// `many`, `filename_version`) looks at the entries of all the directories
/// that the parent path names, as if they were one directory: once they have
/// been listed without errors, it is true exactly when at least one entry
/// counts over all of them together, or for `many` at least two, whichever
/// directories those entries are in.
pub proof fn lemma_entries_count_across_all_directories(
    f: FunctionView,
    s: StateView,
    parent: Seq<char>,
    a: Seq<AnswerView>,
    ls: Seq<ListingView>,
)
    requires
        match f {
            FunctionView::FileRegex(p, _) => p == parent,
            FunctionView::Many(p, _) => p == parent,
            FunctionView::FilenameVersion(p, _, _, _) => p == parent,
            _ => false,
        },
        listings_at(a, 0, listing_dirs(s, parent).len()) == Some(ls),
        read_without_errors(ls),
    ensures
        outcome(f, s, a) == StepView::Done(
            Ok::<bool, ErrorView>(
                listings_counted_from(f, s.game_type, ls, 0) >= (if f is Many {
                    2nat
                } else {
                    1nat
                }),
            ),
        ),
{
    lemma_scan_listings_counts(f, s.game_type, parent, ls, 0, 0);
}

/// A ghosted plugin counts for `file` with a regex, and for `many`, exactly
/// as the plugin would unghosted: the regex is matched against the entry's
/// name without its `.ghost` extension. Here `n` is a name that is its own
/// final path component, as a directory entry's name is.
pub proof fn lemma_ghosted_entries_count_as_unghosted(
    f: FunctionView,
    game: GameType,
    n: Seq<char>,
)
    requires
        f is FileRegex || f is Many,
        file_name_of(n) == Some(n),
        file_name_of(n + ".ghost"@) == Some(n + ".ghost"@),
        has_unghosted_plugin_extension(game, n),
    ensures
        entry_counts(f, game, n + ".ghost"@) == entry_counts(f, game, n),
{
    reveal_strlit(".ghost");
    reveal_strlit("ghost");
    let g = n + ".ghost"@;
    assert(g[n.len() as int] == '.');
    lemma_last_dot_at(g, n.len() as int);
    assert(g.take(n.len() as int) =~= n);
    assert(g.skip(n.len() as int + 1) =~= "ghost"@);
    assert(n.len() > 0) by {
        if n.len() == 0 {
            assert(split_name(n).1 is None);
        }
    }
    assert(normalised_name(game, g) == n);
    assert(normalised_name(game, n) == n) by {
        let e = extension_of(n).unwrap();
        assert(!same_ignoring_ascii_case(e, "ghost"@)) by {
            if same_ignoring_ascii_case(e, "ghost"@) {
                reveal_strlit("esp");
                reveal_strlit("esm");
                reveal_strlit("esl");
                assert(e.len() == 5);
            }
        }
    }
}

/// Whether a function's results are cached: those that read the file
/// system, but for checksums, whose checksums are cached instead.
pub open spec fn is_slow(f: FunctionView) -> bool {
    !(f is ActivePath || f is ActiveRegex || f is ManyActive || f is Checksum)
}

/// What evaluating a function does next: a result cached for it, or else
/// its outcome.
pub open spec fn function_step(f: FunctionView, s: StateView, a: Seq<AnswerView>) -> StepView {
    if is_slow(f) && cached_result(s.condition_cache, f) is Some {
        StepView::Done(Ok(cached_result(s.condition_cache, f).unwrap()))
    } else {
        outcome(f, s, a)
    }
}

/// The state after a step: a result newly found for a slow function is
/// cached, and so is a checksum newly computed.
pub open spec fn state_after(f: FunctionView, s: StateView, a: Seq<AnswerView>) -> StateView {
    if is_slow(f) {
        if cached_result(s.condition_cache, f) is Some {
            s
        } else {
            match outcome(f, s, a) {
                StepView::Done(Ok(b)) => StateView {
                    condition_cache: s.condition_cache.push((f, b)),
                    ..s
                },
                _ => s,
            }
        }
    } else {
        match f {
            FunctionView::Checksum(p, _) => match computed_crc(s, p, a) {
                Some(c) => StateView { crc_cache: s.crc_cache.insert(lowercase(p), c), ..s },
                None => s,
            },
            _ => s,
        }
    }
}

fn flag_of(answers: &[Answer], k: usize) -> (r: Option<bool>)
    ensures
        r == flag_at(answer_views(answers@), k as int),
{
    if k < answers.len() {
        match &answers[k] {
            Answer::Flag(b) => Some(*b),
            _ => None,
        }
    } else {
        None
    }
}

fn size_of(answers: &[Answer], k: usize) -> (r: Option<Option<u64>>)
    ensures
        r == size_at(answer_views(answers@), k as int),
{
    if k < answers.len() {
        match &answers[k] {
            Answer::Size(n) => Some(*n),
            _ => None,
        }
    } else {
        None
    }
}

fn contents_of(answers: &[Answer], k: usize) -> (r: Option<&Result<Vec<u8>, String>>)
    ensures
        match r {
            Some(Ok(b)) => contents_at(answer_views(answers@), k as int) == Some(
                Ok::<Seq<u8>, Seq<char>>(b@),
            ),
            Some(Err(m)) => contents_at(answer_views(answers@), k as int) == Some(
                Err::<Seq<u8>, Seq<char>>(m@),
            ),
            None => contents_at(answer_views(answers@), k as int) is None,
        },
{
    if k < answers.len() {
        match &answers[k] {
            Answer::Contents(c) => Some(c),
            _ => None,
        }
    } else {
        None
    }
}

fn flags_of(answers: &[Answer], k: usize, n: usize) -> (r: Option<&Vec<bool>>)
    ensures
        match r {
            Some(f) => flags_at(answer_views(answers@), k as int, n as nat) == Some(f@),
            None => flags_at(answer_views(answers@), k as int, n as nat) is None,
        },
{
    if k < answers.len() {
        match &answers[k] {
            Answer::Flags(f) => if f.len() == n {
                Some(f)
            } else {
                None
            },
            _ => None,
        }
    } else {
        None
    }
}

fn listings_of(answers: &[Answer], k: usize, n: usize) -> (r: Option<&Vec<Listing>>)
    ensures
        match r {
            Some(l) => listings_at(answer_views(answers@), k as int, n as nat) == Some(
                l@.map_values(|x: Listing| x@),
            ),
            None => listings_at(answer_views(answers@), k as int, n as nat) is None,
        },
{
    if k < answers.len() {
        match &answers[k] {
            Answer::Listings(l) => if l.len() == n {
                Some(l)
            } else {
                None
            },
            _ => None,
        }
    } else {
        None
    }
}

/// Resolves a path once the first answer tells which candidates exist.
fn resolve_step(state: &State, path: &str, answers: &[Answer]) -> (r: Result<(String, bool), Query>)
    ensures
        match r {
            Ok((p, e)) => resolved(state@, path@, answer_views(answers@)) == Ok::<
                (Seq<char>, bool),
                QueryView,
            >((p@, e)),
            Err(q) => resolved(state@, path@, answer_views(answers@)) == Err::<
                (Seq<char>, bool),
                QueryView,
            >(q@),
        },
{
    let c = resolve_candidates(state, path);
    match flags_of(answers, 0, c.len()) {
        Some(f) => Ok(resolve_with(state, path, f.as_slice())),
        None => Err(Query::Exist(c)),
    }
}

fn done(b: bool) -> (r: Step)
    ensures
        r@ == StepView::Done(Ok(b)),
{
    Step::Done(Ok(b))
}

fn compares_exec(c: ComparisonOperator, actual: &Version, given: &Version) -> (r: bool)
    ensures
        r == compares(c, actual@, given@),
{
    match c {
        ComparisonOperator::Equal => actual.eq(given),
        ComparisonOperator::NotEqual => !actual.eq(given),
        ComparisonOperator::LessThan => match actual.compare(given) {
            Ordering::Less => true,
            _ => false,
        },
        ComparisonOperator::GreaterThan => match actual.compare(given) {
            Ordering::Greater => true,
            _ => false,
        },
        ComparisonOperator::LessThanOrEqual => match actual.compare(given) {
            Ordering::Greater => false,
            _ => true,
        },
        ComparisonOperator::GreaterThanOrEqual => match actual.compare(given) {
            Ordering::Less => false,
            _ => true,
        },
    }
}

fn missing_version_exec(c: ComparisonOperator) -> (r: bool)
    ensures
        r == missing_version_result(c),
{
    c == ComparisonOperator::NotEqual || c == ComparisonOperator::LessThan || c
        == ComparisonOperator::LessThanOrEqual
}

/// The version of the file at the resolved path, as `file_version_step`
/// has it, or the question to ask.
fn file_version_exec(state: &State, rp: &str, answers: &[Answer], product: bool) -> (r: Result<
    Result<Option<Version>, Error>,
    Query,
>)
    ensures
        match r {
            Err(q) => file_version_step(state@, rp@, answer_views(answers@), product) == Err::<
                Result<Option<VersionView>, ErrorView>,
                QueryView,
            >(q@),
            Ok(v) => file_version_step(state@, rp@, answer_views(answers@), product) == Ok::<
                Result<Option<VersionView>, ErrorView>,
                QueryView,
            >(version_result_view(v)),
        },
{
    match flag_of(answers, 1) {
        None => {
            return Err(Query::IsFile(string_from_str(rp)));
        },
        Some(false) => {
            return Ok(Ok(None));
        },
        Some(true) => {},
    }
    if !product {
        if let Some(name) = path_file_name(rp) {
            let key = to_lowercase(name.as_str());
            if let Some(v) = state.plugin_version(key.as_str()) {
                return Ok(Ok(Some(Version::from(v.as_str()))));
            }
        }
        if has_plugin_file_extension(state.game_type(), rp) {
            return Ok(Ok(None));
        }
    }
    match contents_of(answers, 2) {
        None => Err(Query::Read(string_from_str(rp))),
        Some(Err(m)) => Ok(Err(Error::IoError(string_from_str(rp), m.clone()))),
        Some(Ok(b)) => Ok(
            if product {
                Version::read_product_version(rp, b.as_slice())
            } else {
                Version::read_file_version(rp, b.as_slice())
            },
        ),
    }
}

fn version_exec(
    state: &State,
    path: &str,
    given: &str,
    c: ComparisonOperator,
    answers: &[Answer],
    product: bool,
) -> (r: Step)
    ensures
        r@ == version_step(state@, path@, given@, c, answer_views(answers@), product),
{
    let rp = match resolve_step(state, path, answers) {
        Err(q) => {
            return Step::Ask(q);
        },
        Ok((rp, _)) => rp,
    };
    match file_version_exec(state, rp.as_str(), answers, product) {
        Err(q) => Step::Ask(q),
        Ok(Err(e)) => Step::Done(Err(e)),
        Ok(Ok(None)) => done(missing_version_exec(c)),
        Ok(Ok(Some(v))) => {
            let g = Version::from(given);
            done(compares_exec(c, &v, &g))
        },
    }
}

/// The step of a checksum function, and the checksum newly computed, if
/// one was.
fn checksum_exec(state: &State, path: &str, crc: u32, answers: &[Answer]) -> (r: (Step, Option<u32>))
    ensures
        r.0@ == checksum_step(state@, path@, crc, answer_views(answers@)),
        r.1 == computed_crc(state@, path@, answer_views(answers@)),
{
    let key = to_lowercase(path);
    if let Some(c) = state.cached_crc(key.as_str()) {
        return (done(c == crc), None);
    }
    let rp = match resolve_step(state, path, answers) {
        Err(q) => {
            return (Step::Ask(q), None);
        },
        Ok((rp, _)) => rp,
    };
    match flag_of(answers, 1) {
        None => (Step::Ask(Query::IsFile(rp)), None),
        Some(false) => (done(false), None),
        Some(true) => match contents_of(answers, 2) {
            None => (Step::Ask(Query::Read(rp)), None),
            Some(Err(m)) => (Step::Done(Err(Error::IoError(string_from_str(path), m.clone()))), None),
            Some(Ok(b)) => {
                let c = checksum(b.as_slice());
                (done(c == crc), Some(c))
            },
        },
    }
}

fn contents_result_exec(f: &Function, state: &State, rp: &str, b: &[u8]) -> (r: bool)
    ensures
        r == contents_result(f@, state@, rp@, b@),
{
    match f {
        Function::IsExecutable(_) => Version::is_readable(b),
        Function::IsMaster(_) => match plugin_is_master(plugin_game(state.game_type()), rp, b) {
            Some(m) => m,
            None => false,
        },
        Function::DescriptionContains(_, r) => match plugin_description(
            plugin_game(state.game_type()),
            rp,
            b,
        ) {
            Some(Some(d)) => r.is_match(d.as_str()),
            _ => false,
        },
        _ => false,
    }
}

fn contents_exec(f: &Function, state: &State, path: &str, answers: &[Answer]) -> (r: Step)
    ensures
        r@ == contents_step(f@, state@, path@, answer_views(answers@)),
{
    let rp = match resolve_step(state, path, answers) {
        Err(q) => {
            return Step::Ask(q);
        },
        Ok((rp, _)) => rp,
    };
    match contents_of(answers, 1) {
        None => Step::Ask(Query::Read(rp)),
        Some(Err(_)) => done(false),
        Some(Ok(b)) => done(contents_result_exec(f, state, rp.as_str(), b.as_slice())),
    }
}

fn active_path_exec(state: &State, path: &str) -> (r: bool)
    ensures
        r == state@.active_plugins.contains(lowercase(path@)),
{
    let key = to_lowercase(path);
    contains_string(state.active_plugins(), &key)
}

fn active_regex_exec(state: &State, r: &crate::pattern::Regex) -> (b: bool)
    ensures
        b == exists|x: Seq<char>| state@.active_plugins.contains(x) && regex_is_match(r@, true, x),
{
    let active = state.active_plugins();
    let ghost names = string_views(active@);
    let mut i: usize = 0;
    while i < active.len()
        invariant
            i <= active@.len(),
            names == string_views(active@),
            names.to_set() == state@.active_plugins,
            forall|k: int| 0 <= k < i ==> !regex_is_match(r@, true, #[trigger] names[k]),
        decreases active@.len() - i,
    {
        if r.is_match(active[i].as_str()) {
            assert(names[i as int] == active@[i as int]@);
            assert(state@.active_plugins.contains(names[i as int]));
            return true;
        }
        i = i + 1;
    }
    assert forall|x: Seq<char>|
        state@.active_plugins.contains(x) implies !regex_is_match(r@, true, x) by {
        let k = choose|k: int| 0 <= k < names.len() && names[k] == x;
    }
    false
}

fn many_active_exec(state: &State, r: &crate::pattern::Regex) -> (b: bool)
    ensures
        b == exists|x: Seq<char>, y: Seq<char>|
            x != y && state@.active_plugins.contains(x) && state@.active_plugins.contains(y)
                && regex_is_match(r@, true, x) && regex_is_match(r@, true, y),
{
    let active = state.active_plugins();
    let ghost names = string_views(active@);
    let mut first: Option<usize> = None;
    let mut i: usize = 0;
    while i < active.len()
        invariant
            i <= active@.len(),
            names == string_views(active@),
            names.to_set() == state@.active_plugins,
            names.no_duplicates(),
            match first {
                Some(f) => f < i && regex_is_match(r@, true, names[f as int]) && forall|k: int|
                    0 <= k < i && k != f ==> !regex_is_match(r@, true, #[trigger] names[k]),
                None => forall|k: int| 0 <= k < i ==> !regex_is_match(r@, true, #[trigger] names[k]),
            },
        decreases active@.len() - i,
    {
        if r.is_match(active[i].as_str()) {
            assert(names[i as int] == active@[i as int]@);
            match first {
                Some(f) => {
                    assert(names[f as int] != names[i as int]);
                    assert(state@.active_plugins.contains(names[f as int]));
                    assert(state@.active_plugins.contains(names[i as int]));
                    return true;
                },
                None => {
                    first = Some(i);
                },
            }
        }
        i = i + 1;
    }
    assert forall|x: Seq<char>, y: Seq<char>|
        x != y && state@.active_plugins.contains(x) && state@.active_plugins.contains(y)
            && regex_is_match(r@, true, x) implies !regex_is_match(r@, true, y) by {
        let kx = choose|k: int| 0 <= k < names.len() && names[k] == x;
        let ky = choose|k: int| 0 <= k < names.len() && names[k] == y;
    }
    false
}

fn entry_counts_exec(f: &Function, game: GameType, name: &str) -> (r: bool)
    ensures
        r == entry_counts(f@, game, name@),
{
    match f {
        Function::FileRegex(_, r) => r.is_match(normalise_file_name(game, name).as_str()),
        Function::Many(_, r) => r.is_match(normalise_file_name(game, name).as_str()),
        Function::FilenameVersion(_, r, v, c) => match r.first_group(name) {
            Some(g) => {
                let actual = Version::from(g.as_str());
                let given = Version::from(v.as_str());
                compares_exec(*c, &actual, &given)
            },
            None => false,
        },
        _ => false,
    }
}

pub open spec fn listing_views(ls: Seq<Listing>) -> Seq<ListingView> {
    ls.map_values(|x: Listing| x@)
}

pub open spec fn name_views(names: Seq<Option<String>>) -> Seq<Option<Seq<char>>> {
    names.map_values(|n: Option<String>| option_view(n))
}

/// Goes through the directories' entries as `scan_listings` does.
fn scan_exec(f: &Function, game: GameType, parent: &str, ls: &Vec<Listing>) -> (r: Result<bool, Error>)
    ensures
        match r {
            Ok(b) => scan_listings(f@, game, parent@, listing_views(ls@), 0, 0) == Ok::<
                bool,
                ErrorView,
            >(b),
            Err(e) => scan_listings(f@, game, parent@, listing_views(ls@), 0, 0) == Err::<
                bool,
                ErrorView,
            >(e@),
        },
{
    let ghost lv = listing_views(ls@);
    let needed: u64 = match f {
        Function::Many(_, _) => 2,
        _ => 1,
    };
    assert(needed == entries_needed(f@));
    let mut found: u64 = 0;
    let mut li: usize = 0;
    while li < ls.len()
        invariant
            li <= ls@.len(),
            lv == listing_views(ls@),
            needed == entries_needed(f@),
            found < needed,
            scan_listings(f@, game, parent@, lv, 0, 0) == scan_listings(
                f@,
                game,
                parent@,
                lv,
                li as int,
                found as nat,
            ),
        decreases ls@.len() - li,
    {
        match &ls[li] {
            Listing::Unreadable => {},
            Listing::Entries(names, e) => {
                let ghost nv = name_views(names@);
                let ghost ev = option_view(*e);
                assert(lv[li as int] == ListingView::Entries(nv, ev));
                let mut j: usize = 0;
                while j < names.len()
                    invariant
                        j <= names@.len(),
                        li < ls@.len(),
                        lv == listing_views(ls@),
                        nv == name_views(names@),
                        needed == entries_needed(f@),
                        found < needed,
                        scan_listings(f@, game, parent@, lv, 0, 0) == scan_entries(
                            f@,
                            game,
                            parent@,
                            lv,
                            li as int,
                            nv,
                            ev,
                            j as int,
                            found as nat,
                        ),
                    decreases names@.len() - j,
                {
                    match &names[j] {
                        Some(n) => {
                            assert(nv[j as int] == Some(n@));
                            if entry_counts_exec(f, game, n.as_str()) {
                                if found + 1 >= needed {
                                    return Ok(true);
                                }
                                found = found + 1;
                            }
                        },
                        None => {
                            assert(nv[j as int] is None);
                        },
                    }
                    j = j + 1;
                }
                match e {
                    Some(m) => {
                        return Err(Error::IoError(string_from_str(parent), m.clone()));
                    },
                    None => {},
                }
            },
        }
        li = li + 1;
    }
    Ok(false)
}

fn listing_dirs_exec(state: &State, parent: &str) -> (r: Vec<String>)
    ensures
        string_seq(r@) == listing_dirs(state@, parent@),
{
    let folders = state.additional_data_paths();
    let mut out: Vec<String> = Vec::new();
    let mut i: usize = 0;
    while i < folders.len()
        invariant
            i <= folders@.len(),
            string_views(folders@) == state@.additional_data_paths,
            string_seq(out@) == state@.additional_data_paths.take(i as int).map_values(
                |d: Seq<char>| joined(d, parent@),
            ),
        decreases folders@.len() - i,
    {
        let ghost prev = string_seq(out@);
        let p = path_join(folders[i].as_str(), parent);
        let ghost pv = p@;
        out.push(p);
        assert(string_seq(out@) =~= prev.push(pv));
        assert(string_views(folders@)[i as int] == folders@[i as int]@);
        assert(string_seq(out@) =~= state@.additional_data_paths.take(i + 1).map_values(
            |d: Seq<char>| joined(d, parent@),
        ));
        i = i + 1;
    }
    assert(state@.additional_data_paths.take(i as int) =~= state@.additional_data_paths);
    let ghost prev = string_seq(out@);
    let last = path_join(state.data_path(), parent);
    out.push(last);
    assert(string_seq(out@) =~= listing_dirs(state@, parent@));
    out
}

fn entries_exec(f: &Function, state: &State, parent: &str, answers: &[Answer]) -> (r: Step)
    ensures
        r@ == entries_step(f@, state@, parent@, answer_views(answers@)),
{
    let dirs = listing_dirs_exec(state, parent);
    match listings_of(answers, 0, dirs.len()) {
        Some(ls) => match scan_exec(f, state.game_type(), parent, ls) {
            Ok(b) => done(b),
            Err(e) => Step::Done(Err(e)),
        },
        None => Step::Ask(Query::List(dirs)),
    }
}

impl Function {
    /// Whether the function's results are cached.
    pub fn is_slow(&self) -> (r: bool)
        ensures
            r == is_slow(self@),
    {
        match self {
            Function::ActivePath(_) | Function::ActiveRegex(_) | Function::ManyActive(_)
            | Function::Checksum(_, _) => false,
            _ => true,
        }
    }

    /// What evaluating the function does next before any cached result is
    /// looked at, and the checksum newly computed, if one was.
    fn outcome(&self, state: &State, answers: &[Answer]) -> (r: (Step, Option<u32>))
        ensures
            r.0@ == outcome(self@, state@, answer_views(answers@)),
            r.1 == match self@ {
                FunctionView::Checksum(p, _) => computed_crc(state@, p, answer_views(answers@)),
                _ => None,
            },
    {
        match self {
            Function::FilePath(p) => match resolve_step(state, p.as_str(), answers) {
                Err(q) => (Step::Ask(q), None),
                Ok((_, exists)) => (done(exists), None),
            },
            Function::FileRegex(p, _) => (entries_exec(self, state, p.as_str(), answers), None),
            Function::FileSize(p, size) => match resolve_step(state, p.as_str(), answers) {
                Err(q) => (Step::Ask(q), None),
                Ok((rp, _)) => match size_of(answers, 1) {
                    None => (Step::Ask(Query::Size(rp)), None),
                    Some(Some(n)) => (done(n == *size), None),
                    Some(None) => (done(false), None),
                },
            },
            Function::Readable(p) => match resolve_step(state, p.as_str(), answers) {
                Err(q) => (Step::Ask(q), None),
                Ok((rp, _)) => match flag_of(answers, 1) {
                    None => (Step::Ask(Query::IsDir(rp)), None),
                    Some(dir) => match flag_of(answers, 2) {
                        None => (
                            Step::Ask(
                                if dir {
                                    Query::CanReadDir(rp)
                                } else {
                                    Query::CanOpen(rp)
                                },
                            ),
                            None,
                        ),
                        Some(ok) => (done(ok), None),
                    },
                },
            },
            Function::IsExecutable(p) => (contents_exec(self, state, p.as_str(), answers), None),
            Function::ActivePath(p) => (done(active_path_exec(state, p.as_str())), None),
            Function::ActiveRegex(r) => (done(active_regex_exec(state, r)), None),
            Function::IsMaster(p) => (contents_exec(self, state, p.as_str(), answers), None),
            Function::Many(p, _) => (entries_exec(self, state, p.as_str(), answers), None),
            Function::ManyActive(r) => (done(many_active_exec(state, r)), None),
            Function::Checksum(p, crc) => checksum_exec(state, p.as_str(), *crc, answers),
            Function::Version(p, v, c) => (
                version_exec(state, p.as_str(), v.as_str(), *c, answers, false),
                None,
            ),
            Function::ProductVersion(p, v, c) => (
                version_exec(state, p.as_str(), v.as_str(), *c, answers, true),
                None,
            ),
            Function::FilenameVersion(p, _, _, _) => (
                entries_exec(self, state, p.as_str(), answers),
                None,
            ),
            Function::DescriptionContains(p, _) => (
                contents_exec(self, state, p.as_str(), answers),
                None,
            ),
        }
    }

    /// Evaluates the function against the state, given the answers to the
    /// questions about the file system asked so far: a result cached for the
    /// function, or the next question, or the result. A result newly found
    /// for a function whose results are cached is cached, and so is a
    /// checksum newly computed.
    pub fn eval(&self, state: &mut State, answers: &[Answer]) -> (r: Step)
        ensures
            r@ == function_step(self@, old(state)@, answer_views(answers@)),
            final(state)@ == state_after(self@, old(state)@, answer_views(answers@)),
    {
        let slow = self.is_slow();
        if slow {
            if let Some(b) = state.cached_condition(self) {
                return done(b);
            }
        }
        let (step, crc) = self.outcome(state, answers);
        if slow {
            if let Step::Done(Ok(b)) = &step {
                state.cache_condition(self.clone(), *b);
            }
        } else if let Some(c) = crc {
            match self {
                Function::Checksum(p, _) => {
                    let key = to_lowercase(p.as_str());
                    state.cache_crc(key, c);
                },
                _ => {},
            }
        }
        step
    }
}

/// Once a function whose results are cached has been evaluated to a value,
/// evaluating it again, whatever the file system then says, gives the same
/// value without asking anything.
pub proof fn lemma_cached_results_are_reused(
    f: FunctionView,
    s: StateView,
    a: Seq<AnswerView>,
    later: Seq<AnswerView>,
    b: bool,
)
    requires
        is_slow(f),
        function_step(f, s, a) == StepView::Done(Ok::<bool, ErrorView>(b)),
    ensures
        function_step(f, state_after(f, s, a), later) == StepView::Done(Ok::<bool, ErrorView>(b)),
{
    crate::function::lemma_same_function_is_equivalence(f, f, f);
    crate::lemma_cached_result_after_insert(s.condition_cache, f, b, f);
}

/// The state after evaluating each function in turn with its answers.
pub open spec fn state_after_all(s: StateView, evaluations: Seq<(FunctionView, Seq<AnswerView>)>) -> StateView
    decreases evaluations.len(),
{
    if evaluations.len() == 0 {
        s
    } else {
        let last = evaluations.last();
        state_after(last.0, state_after_all(s, evaluations.drop_last()), last.1)
    }
}

/// Once a slow function has been evaluated to a value, evaluating it again
/// after any number of other evaluations, whatever their answers and
/// whatever the file system then says, gives the same value without asking
/// anything, as long as the condition cache is not cleared.
pub proof fn lemma_cached_results_reused_after_any_evaluations(
    f: FunctionView,
    s: StateView,
    a: Seq<AnswerView>,
    b: bool,
    evaluations: Seq<(FunctionView, Seq<AnswerView>)>,
    later: Seq<AnswerView>,
)
    requires
        is_slow(f),
        function_step(f, s, a) == StepView::Done(Ok::<bool, ErrorView>(b)),
    ensures
        cached_result(state_after_all(state_after(f, s, a), evaluations).condition_cache, f) == Some(b),
        function_step(f, state_after_all(state_after(f, s, a), evaluations), later) == StepView::Done(
            Ok::<bool, ErrorView>(b),
        ),
    decreases evaluations.len(),
{
    if evaluations.len() == 0 {
        crate::function::lemma_same_function_is_equivalence(f, f, f);
        crate::lemma_cached_result_after_insert(s.condition_cache, f, b, f);
    } else {
        lemma_cached_results_reused_after_any_evaluations(f, s, a, b, evaluations.drop_last(), later);
        let last = evaluations.last();
        lemma_cached_results_survive_other_evaluations(
            f,
            b,
            last.0,
            state_after_all(state_after(f, s, a), evaluations.drop_last()),
            last.1,
            later,
        );
    }
}

/// Once a checksum has been computed for a path, a checksum function of the
/// same path is evaluated against the cached checksum, whatever the file
/// system then says.
/// A result cached for a slow function stays cached, and is what evaluating
/// that function gives, whatever other function is evaluated in between
/// with whatever answers; so it holds across any number of evaluations until
/// the condition cache is cleared.
pub proof fn lemma_cached_results_survive_other_evaluations(
    f: FunctionView,
    b: bool,
    g: FunctionView,
    s: StateView,
    a: Seq<AnswerView>,
    later: Seq<AnswerView>,
)
    requires
        is_slow(f),
        cached_result(s.condition_cache, f) == Some(b),
    ensures
        cached_result(state_after(g, s, a).condition_cache, f) == Some(b),
        function_step(f, state_after(g, s, a), later) == StepView::Done(Ok::<bool, ErrorView>(b)),
{
    if is_slow(g) && cached_result(s.condition_cache, g) is None {
        if crate::function::same_function(g, f) {
            crate::lemma_cached_result_respects_sameness(s.condition_cache, g, f);
        }
        match outcome(g, s, a) {
            StepView::Done(Ok(r)) => {
                crate::lemma_cached_result_after_insert(s.condition_cache, g, r, f);
            },
            _ => {},
        }
    }
}

/// Once a checksum has been computed for a path, a later checksum function
/// on that path compares against it, whatever the file system then says and
/// whatever checksum it is given.
pub proof fn lemma_computed_checksums_are_reused(
    p: Seq<char>,
    crc: u32,
    s: StateView,
    a: Seq<AnswerView>,
    other: u32,
    later: Seq<AnswerView>,
)
    requires
        computed_crc(s, p, a) is Some,
    ensures
        function_step(FunctionView::Checksum(p, other), state_after(FunctionView::Checksum(p, crc), s, a), later)
            == StepView::Done(Ok::<bool, ErrorView>(computed_crc(s, p, a).unwrap() == other)),
{
}

} // verus!