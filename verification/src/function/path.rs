//! File names and extensions, ghosted plugins, and how a path relative to the
//! game's data folders is resolved.
use vstd::prelude::*;

use crate::text::{chars_of, string_from_str, string_of};
use crate::{GameType, State, StateView};

verus! {

broadcast use vstd::string::group_string_axioms;

/// What `Path::file_name` gives for a path: its final component, unless that
/// is `..` or the path has none.
pub uninterp spec fn file_name_of(path: Seq<char>) -> Option<Seq<char>>;

/// What `Path::with_extension` gives for a path and an extension.
pub uninterp spec fn with_extension_of(path: Seq<char>, extension: Seq<char>) -> Seq<char>;

/// What `Path::join` gives for a base path and a path to append to it.
pub uninterp spec fn joined(base: Seq<char>, path: Seq<char>) -> Seq<char>;

/// Whether a string holds neither `/` nor `\`, the characters that
/// `std::path::is_separator` accepts on some platform (`/` everywhere, `\`
/// on Windows).
pub open spec fn separator_free(s: Seq<char>) -> bool {
    forall|i: int| 0 <= i < s.len() ==> s[i] != '/' && s[i] != '\\'
}

/// Calls `Path::file_name`. The name is a part of a string slice, so it
/// converts back to a `String` without loss. A file name is a single
/// component, so it never holds `/`, which separates components on every
/// platform.
#[verifier::external_body]
pub(crate) fn path_file_name(path: &str) -> (r: Option<String>)
    ensures
        match r {
            Some(n) => file_name_of(path@) == Some(n@),
            None => file_name_of(path@) is None,
        },
        match r {
            Some(n) => forall|i: int| 0 <= i < n@.len() ==> n@[i] != '/',
            None => true,
        },
{
    match std::path::Path::new(path).file_name() {
        Some(n) => Some(n.to_string_lossy().into_owned()),
        None => None,
    }
}

/// Calls `Path::with_extension`; the result is made of parts of the two
/// string slices, so it converts back to a `String` without loss.
/// `PathBuf::set_extension`, which it calls, panics on an extension that holds
/// a path separator, so the extension may hold neither `/` nor `\`.
#[verifier::external_body]
fn path_with_extension(path: &str, extension: &str) -> (r: String)
    requires
        separator_free(extension@),
    ensures
        r@ == with_extension_of(path@, extension@),
{
    std::path::Path::new(path).with_extension(extension).to_string_lossy().into_owned()
}

/// Calls `Path::join`; the result is made of parts of the two string slices,
/// so it converts back to a `String` without loss.
#[verifier::external_body]
pub(crate) fn path_join(base: &str, path: &str) -> (r: String)
    ensures
        r@ == joined(base@, path@),
{
    std::path::Path::new(base).join(path).to_string_lossy().into_owned()
}

/// The position of the last `.` in a string.
pub open spec fn last_dot(s: Seq<char>) -> Option<int>
    decreases s.len(),
{
    if s.len() == 0 {
        None
    } else if s.last() == '.' {
        Some(s.len() - 1)
    } else {
        last_dot(s.drop_last())
    }
}

/// The last `.` of a string that ends with a `.` followed by characters
/// other than `.` lies at that position.
pub proof fn lemma_last_dot_at(s: Seq<char>, k: int)
    requires
        0 <= k < s.len(),
        s[k] == '.',
        forall|i: int| k < i < s.len() ==> s[i] != '.',
    ensures
        last_dot(s) == Some(k),
    decreases s.len(),
{
    if s.len() - 1 > k {
        lemma_last_dot_at(s.drop_last(), k);
    }
}

/// A file name split into its stem and its extension, as `Path::file_stem`
/// and `Path::extension` document it: the extension follows the last `.`,
/// unless that `.` begins the name.
pub open spec fn split_name(name: Seq<char>) -> (Seq<char>, Option<Seq<char>>) {
    match last_dot(name) {
        Some(k) => if k > 0 {
            (name.take(k), Some(name.skip(k + 1)))
        } else {
            (name, None)
        },
        None => (name, None),
    }
}

/// The extension of a path's file name.
pub open spec fn extension_of(path: Seq<char>) -> Option<Seq<char>> {
    match file_name_of(path) {
        Some(n) => split_name(n).1,
        None => None,
    }
}

/// The stem of a path's file name.
pub open spec fn stem_of(path: Seq<char>) -> Option<Seq<char>> {
    match file_name_of(path) {
        Some(n) => Some(split_name(n).0),
        None => None,
    }
}

/// A character with ASCII upper case letters mapped to lower case, as a
/// code point.
pub open spec fn ascii_lower(c: char) -> u32 {
    if 'A' <= c <= 'Z' {
        (c as u32 + 32) as u32
    } else {
        c as u32
    }
}

/// Equality of strings up to ASCII case, as `eq_ignore_ascii_case` has it.
pub open spec fn same_ignoring_ascii_case(a: Seq<char>, b: Seq<char>) -> bool {
    a.len() == b.len() && forall|i: int| 0 <= i < a.len() ==> ascii_lower(a[i]) == ascii_lower(b[i])
}

/// Whether an extension is that of an unghosted plugin for the game: `esp`
/// and `esm`, and `esl` where the game supports light plugins, in any ASCII
/// case.
pub open spec fn is_unghosted_plugin_extension(game: GameType, extension: Seq<char>) -> bool {
    same_ignoring_ascii_case(extension, "esp"@) || same_ignoring_ascii_case(extension, "esm"@) || (
    game.spec_supports_light_plugins() && same_ignoring_ascii_case(extension, "esl"@))
}

pub open spec fn has_unghosted_plugin_extension(game: GameType, path: Seq<char>) -> bool {
    match extension_of(path) {
        Some(e) => is_unghosted_plugin_extension(game, e),
        None => false,
    }
}

/// Whether a path names a plugin, ghosted (with a further `.ghost`
/// extension) or not.
pub open spec fn has_plugin_extension(game: GameType, path: Seq<char>) -> bool {
    match extension_of(path) {
        Some(e) => if same_ignoring_ascii_case(e, "ghost"@) {
            match stem_of(path) {
                Some(s) => has_unghosted_plugin_extension(game, s),
                None => false,
            }
        } else {
            is_unghosted_plugin_extension(game, e)
        },
        None => false,
    }
}

/// The path with `.ghost` appended to its extension, or with the extension
/// `ghost` where it has none.
pub open spec fn ghosted(path: Seq<char>) -> Seq<char> {
    match extension_of(path) {
        Some(e) => with_extension_of(path, e + ".ghost"@),
        None => with_extension_of(path, "ghost"@),
    }
}

/// A file name without a `.ghost` extension where what remains names an
/// unghosted plugin; otherwise the name itself.
pub open spec fn normalised_name(game: GameType, name: Seq<char>) -> Seq<char> {
    match extension_of(name) {
        Some(e) => if same_ignoring_ascii_case(e, "ghost"@) {
            match stem_of(name) {
                Some(s) => if has_unghosted_plugin_extension(game, s) {
                    s
                } else {
                    name
                },
                None => name,
            }
        } else {
            name
        },
        None => name,
    }
}

fn ascii_lower_exec(c: char) -> (r: u32)
    ensures
        r == ascii_lower(c),
{
    if 'A' <= c && c <= 'Z' {
        c as u32 + 32
    } else {
        c as u32
    }
}

/// Whether two strings are equal up to ASCII case.
pub fn eq_ignore_ascii_case(a: &[char], b: &[char]) -> (r: bool)
    ensures
        r == same_ignoring_ascii_case(a@, b@),
{
    if a.len() != b.len() {
        return false;
    }
    let mut i: usize = 0;
    while i < a.len()
        invariant
            a.len() == b.len(),
            i <= a.len(),
            forall|k: int| 0 <= k < i ==> ascii_lower(a@[k]) == ascii_lower(b@[k]),
        decreases a.len() - i,
    {
        if ascii_lower_exec(a[i]) != ascii_lower_exec(b[i]) {
            return false;
        }
        i = i + 1;
    }
    true
}

fn last_dot_exec(s: &[char]) -> (r: Option<usize>)
    ensures
        match r {
            Some(k) => last_dot(s@) == Some(k as int) && k < s.len(),
            None => last_dot(s@) is None,
        },
{
    let mut i: usize = s.len();
    assert(s@.take(i as int) =~= s@);
    while i > 0
        invariant
            i <= s.len(),
            last_dot(s@) == last_dot(s@.take(i as int)),
        decreases i,
    {
        assert(s@.take(i as int).drop_last() =~= s@.take(i - 1));
        if s[i - 1] == '.' {
            return Some(i - 1);
        }
        i = i - 1;
    }
    None
}

/// Splits a file name into its stem and extension.
fn split_file_name(name: &[char]) -> (r: (Vec<char>, Option<Vec<char>>))
    ensures
        r.0@ == split_name(name@).0,
        match r.1 {
            Some(e) => split_name(name@).1 == Some(e@),
            None => split_name(name@).1 is None,
        },
{
    match last_dot_exec(name) {
        Some(k) => {
            if k > 0 {
                let stem = vstd::slice::slice_to_vec(&name[0..k]);
                let ext = vstd::slice::slice_to_vec(&name[k + 1..name.len()]);
                assert(stem@ =~= name@.take(k as int));
                assert(ext@ =~= name@.skip(k + 1));
                (stem, Some(ext))
            } else {
                (vstd::slice::slice_to_vec(name), None)
            }
        },
        None => (vstd::slice::slice_to_vec(name), None),
    }
}

/// The extension of a path's file name.
pub fn path_extension(path: &str) -> (r: Option<Vec<char>>)
    ensures
        match r {
            Some(e) => extension_of(path@) == Some(e@),
            None => extension_of(path@) is None,
        },
{
    match path_file_name(path) {
        Some(n) => {
            let c = chars_of(n.as_str());
            split_file_name(c.as_slice()).1
        },
        None => None,
    }
}

/// The stem of a path's file name.
pub fn path_stem(path: &str) -> (r: Option<String>)
    ensures
        match r {
            Some(s) => stem_of(path@) == Some(s@),
            None => stem_of(path@) is None,
        },
{
    match path_file_name(path) {
        Some(n) => {
            let c = chars_of(n.as_str());
            let (stem, _) = split_file_name(c.as_slice());
            Some(string_of(stem.as_slice()))
        },
        None => None,
    }
}

fn literal(s: &str) -> (r: Vec<char>)
    ensures
        r@ == s@,
{
    chars_of(s)
}

fn is_unghosted_extension_chars(game_type: GameType, extension: &[char]) -> (r: bool)
    ensures
        r == is_unghosted_plugin_extension(game_type, extension@),
{
    let esp = literal("esp");
    let esm = literal("esm");
    let esl = literal("esl");
    eq_ignore_ascii_case(extension, esp.as_slice()) || eq_ignore_ascii_case(
        extension,
        esm.as_slice(),
    ) || (game_type.supports_light_plugins() && eq_ignore_ascii_case(extension, esl.as_slice()))
}

/// Whether an extension is that of an unghosted plugin for the game.
pub fn is_unghosted_plugin_file_extension(game_type: GameType, extension: &str) -> (r: bool)
    ensures
        r == is_unghosted_plugin_extension(game_type, extension@),
{
    let e = chars_of(extension);
    is_unghosted_extension_chars(game_type, e.as_slice())
}

fn is_ghost_extension(extension: &[char]) -> (r: bool)
    ensures
        r == same_ignoring_ascii_case(extension@, "ghost"@),
{
    let ghost_ext = literal("ghost");
    eq_ignore_ascii_case(extension, ghost_ext.as_slice())
}

/// Whether a path's extension is that of an unghosted plugin.
pub fn has_unghosted_plugin_file_extension(game_type: GameType, path: &str) -> (r: bool)
    ensures
        r == has_unghosted_plugin_extension(game_type, path@),
{
    match path_extension(path) {
        Some(e) => is_unghosted_extension_chars(game_type, e.as_slice()),
        None => false,
    }
}

/// Whether a path names a plugin, ghosted or not.
pub fn has_plugin_file_extension(game_type: GameType, path: &str) -> (r: bool)
    ensures
        r == has_plugin_extension(game_type, path@),
{
    match path_extension(path) {
        Some(e) => {
            if is_ghost_extension(e.as_slice()) {
                match path_stem(path) {
                    Some(s) => has_unghosted_plugin_file_extension(game_type, s.as_str()),
                    None => false,
                }
            } else {
                is_unghosted_extension_chars(game_type, e.as_slice())
            }
        },
        None => false,
    }
}

/// Adds `.ghost` to a path's extension, or gives it the extension `ghost`.
/// The extension, where the path has one, holds no path separator.
pub fn add_ghost_extension(path: &str) -> (r: String)
    requires
        match extension_of(path@) {
            Some(e) => separator_free(e),
            None => true,
        },
    ensures
        r@ == ghosted(path@),
{
    match path_extension(path) {
        Some(e) => {
            let mut new_extension = e;
            let suffix = literal(".ghost");
            let mut i: usize = 0;
            let ghost base = new_extension@;
            while i < suffix.len()
                invariant
                    i <= suffix@.len(),
                    new_extension@ == base + suffix@.take(i as int),
                decreases suffix@.len() - i,
            {
                new_extension.push(suffix[i]);
                i = i + 1;
                assert(new_extension@ =~= base + suffix@.take(i as int));
            }
            assert(suffix@.take(i as int) =~= suffix@);
            proof {
                reveal_strlit(".ghost");
                assert(separator_free(base + ".ghost"@));
            }
            let text = string_of(new_extension.as_slice());
            path_with_extension(path, text.as_str())
        },
        None => {
            proof {
                reveal_strlit("ghost");
            }
            path_with_extension(path, "ghost")
        },
    }
}

/// A file name without a `.ghost` extension where what remains names an
/// unghosted plugin; otherwise the name itself.
pub fn normalise_file_name(game_type: GameType, name: &str) -> (r: String)
    ensures
        r@ == normalised_name(game_type, name@),
{
    match path_extension(name) {
        Some(e) => {
            if is_ghost_extension(e.as_slice()) {
                if let Some(stem) = path_stem(name) {
                    if has_unghosted_plugin_file_extension(game_type, stem.as_str()) {
                        return stem;
                    }
                }
            }
            string_from_str(name)
        },
        None => string_from_str(name),
    }
}

/// The paths that a data folder offers for a relative path: the joined
/// path, then its ghosted form where it names an unghosted plugin.
pub open spec fn probes_in(game: GameType, folder: Seq<char>, path: Seq<char>) -> Seq<Seq<char>> {
    let p = joined(folder, path);
    if has_unghosted_plugin_extension(game, p) {
        seq![p, ghosted(p)]
    } else {
        seq![p]
    }
}

/// The paths that the additional data folders offer, folder by folder.
pub open spec fn probes_in_all(game: GameType, folders: Seq<Seq<char>>, path: Seq<char>) -> Seq<
    Seq<char>,
>
    decreases folders.len(),
{
    if folders.len() == 0 {
        Seq::empty()
    } else {
        probes_in_all(game, folders.drop_last(), path) + probes_in(game, folders.last(), path)
    }
}

/// Whether a path is the special name that stands for the LOOT path.
pub open spec fn is_loot(path: Seq<char>) -> bool {
    path == "LOOT"@
}

/// The paths whose existence resolving a relative path depends on, in the
/// order in which they are tried: those in the additional data folders, in
/// order, then those in the data folder.
pub open spec fn resolution_candidates(state: StateView, path: Seq<char>) -> Seq<Seq<char>> {
    if is_loot(path) {
        seq![state.loot_path]
    } else {
        probes_in_all(state.game_type, state.additional_data_paths, path) + probes_in(
            state.game_type,
            state.data_path,
            path,
        )
    }
}

/// The first position below `n` at which a flag is set.
pub open spec fn first_set(flags: Seq<bool>, n: int) -> Option<int>
    decreases n,
{
    if n <= 0 {
        None
    } else {
        match first_set(flags, n - 1) {
            Some(i) => Some(i),
            None => if flags[n - 1] {
                Some(n - 1)
            } else {
                None
            },
        }
    }
}

/// The path a relative path resolves to, given which of its candidates
/// exist, and whether that path exists. The first existing candidate in an
/// additional data folder wins; otherwise the path in the data folder, or
/// its ghosted form where the path does not exist and names an unghosted
/// plugin. The LOOT name resolves to the LOOT path.
pub open spec fn resolution(state: StateView, path: Seq<char>, exists: Seq<bool>) -> (
    Seq<char>,
    bool,
) {
    let c = resolution_candidates(state, path);
    if is_loot(path) {
        (c[0], exists[0])
    } else {
        let extra = probes_in_all(state.game_type, state.additional_data_paths, path).len() as int;
        match first_set(exists, extra) {
            Some(i) => (c[i], true),
            None => if exists[extra] {
                (c[extra], true)
            } else if c.len() > extra + 1 {
                (c[extra + 1], exists[extra + 1])
            } else {
                (c[extra], false)
            },
        }
    }
}

/// A plugin extension is made of letters, so it holds no path separator.
proof fn lemma_plugin_extension_separator_free(game: GameType, e: Seq<char>)
    requires
        is_unghosted_plugin_extension(game, e),
    ensures
        separator_free(e),
{
    reveal_strlit("esp");
    reveal_strlit("esm");
    reveal_strlit("esl");
    assert forall|i: int| 0 <= i < e.len() implies e[i] != '/' && e[i] != '\\' by {
        assert(ascii_lower('/') == 47);
        assert(ascii_lower('\\') == 92);
    }
}

fn probes_in_exec(game_type: GameType, folder: &str, path: &str, out: &mut Vec<String>)
    ensures
        string_seq(final(out)@) == string_seq(old(out)@) + probes_in(game_type, folder@, path@),
{
    let p = path_join(folder, path);
    let ghost prev = string_seq(out@);
    if has_unghosted_plugin_file_extension(game_type, p.as_str()) {
        proof {
            lemma_plugin_extension_separator_free(game_type, extension_of(p@).unwrap());
        }
        let g = add_ghost_extension(p.as_str());
        let ghost pv = p@;
        out.push(p);
        out.push(g);
        assert(string_seq(out@) =~= prev + seq![pv, ghosted(pv)]);
    } else {
        let ghost pv = p@;
        out.push(p);
        assert(string_seq(out@) =~= prev + seq![pv]);
    }
}

pub open spec fn string_seq(s: Seq<String>) -> Seq<Seq<char>> {
    s.map_values(|x: String| x@)
}

/// The paths whose existence resolving a relative path depends on.
pub fn resolve_candidates(state: &State, path: &str) -> (r: Vec<String>)
    ensures
        string_seq(r@) == resolution_candidates(state@, path@),
{
    let mut out: Vec<String> = Vec::new();
    let loot = literal("LOOT");
    let p = chars_of(path);
    if p.len() == 4 && p[0] == 'L' && p[1] == 'O' && p[2] == 'O' && p[3] == 'T' {
        proof {
            reveal_strlit("LOOT");
        }
        assert(p@ =~= "LOOT"@);
        out.push(string_from_str(state.loot_path()));
        assert(string_seq(out@) =~= seq![state@.loot_path]);
        return out;
    }
    proof {
        reveal_strlit("LOOT");
        if path@ == "LOOT"@ {
            assert(p@ =~= "LOOT"@);
        }
    }
    let game_type = state.game_type();
    let folders = state.additional_data_paths();
    let mut i: usize = 0;
    assert(string_seq(out@) =~= Seq::empty());
    assert(string_views_prefix(folders@, 0) =~= Seq::empty());
    while i < folders.len()
        invariant
            i <= folders@.len(),
            game_type == state@.game_type,
            crate::string_views(folders@) == state@.additional_data_paths,
            string_seq(out@) == probes_in_all(
                game_type,
                string_views_prefix(folders@, i as int),
                path@,
            ),
        decreases folders@.len() - i,
    {
        assert(string_views_prefix(folders@, i + 1).drop_last() =~= string_views_prefix(
            folders@,
            i as int,
        ));
        probes_in_exec(game_type, folders[i].as_str(), path, &mut out);
        i = i + 1;
    }
    assert(string_views_prefix(folders@, i as int) =~= state@.additional_data_paths);
    probes_in_exec(game_type, state.data_path(), path, &mut out);
    out
}

pub open spec fn string_views_prefix(s: Seq<String>, n: int) -> Seq<Seq<char>> {
    s.take(n).map_values(|x: String| x@)
}

/// The path a relative path resolves to, and whether it exists, given which
/// of the candidates that `resolve_candidates` lists exist.
pub fn resolve_with(state: &State, path: &str, exists: &[bool]) -> (r: (String, bool))
    requires
        exists@.len() == resolution_candidates(state@, path@).len(),
    ensures
        (r.0@, r.1) == resolution(state@, path@, exists@),
{
    let c = resolve_candidates(state, path);
    proof {
        reveal_strlit("LOOT");
    }
    let p = chars_of(path);
    if p.len() == 4 && p[0] == 'L' && p[1] == 'O' && p[2] == 'O' && p[3] == 'T' {
        assert(p@ =~= "LOOT"@);
        return (c[0].clone(), exists[0]);
    }
    assert(!is_loot(path@));
    let ghost extra = probes_in_all(state@.game_type, state@.additional_data_paths, path@).len() as int;
    let main_count: usize = if has_unghosted_plugin_file_extension(
        state.game_type(),
        path_join(state.data_path(), path).as_str(),
    ) {
        2
    } else {
        1
    };
    assert(probes_in(state@.game_type, state@.data_path, path@).len() == main_count);
    let n = c.len() - main_count;
    assert(n == extra);
    let mut i: usize = 0;
    while i < n
        invariant
            i <= n,
            n == extra,
            n < exists@.len(),
            c@.len() == exists@.len(),
            !is_loot(path@),
            string_seq(c@) == resolution_candidates(state@, path@),
            extra == probes_in_all(state@.game_type, state@.additional_data_paths, path@).len(),
            forall|k: int| 0 <= k < i ==> !exists@[k],
        decreases n - i,
    {
        if exists[i] {
            proof {
                lemma_first_set_is(exists@, i as int, extra);
                assert(string_seq(c@)[i as int] == c@[i as int]@);
            }
            return (c[i].clone(), true);
        }
        i = i + 1;
    }
    proof {
        lemma_first_set_none(exists@, extra);
        assert(string_seq(c@)[n as int] == c@[n as int]@);
        if c.len() > n + 1 {
            assert(string_seq(c@)[n + 1] == c@[n + 1]@);
        }
    }
    if exists[n] {
        (c[n].clone(), true)
    } else if c.len() > n + 1 {
        (c[n + 1].clone(), exists[n + 1])
    } else {
        (c[n].clone(), false)
    }
}

proof fn lemma_first_set_is(flags: Seq<bool>, i: int, n: int)
    requires
        0 <= i < n,
        flags[i],
        forall|k: int| 0 <= k < i ==> !flags[k],
    ensures
        first_set(flags, n) == Some(i),
    decreases n,
{
    if n - 1 > i {
        lemma_first_set_is(flags, i, n - 1);
    } else {
        lemma_first_set_none(flags, i);
    }
}

proof fn lemma_first_set_none(flags: Seq<bool>, n: int)
    requires
        forall|k: int| 0 <= k < n ==> !flags[k],
    ensures
        first_set(flags, n) is None,
    decreases n,
{
    if n > 0 {
        lemma_first_set_none(flags, n - 1);
    }
}

/// The path a relative path resolves to, given which of the candidates that
/// `resolve_candidates` lists exist.
pub fn resolve_path(state: &State, path: &str, exists: &[bool]) -> (r: String)
    requires
        exists@.len() == resolution_candidates(state@, path@).len(),
    ensures
        r@ == resolution(state@, path@, exists@).0,
{
    resolve_with(state, path, exists).0
}

} // verus!
