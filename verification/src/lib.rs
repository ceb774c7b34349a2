//! Parsing and evaluation of LOOT metadata condition strings.
use vstd::prelude::*;

pub mod pattern;
pub mod condition;
pub mod error;
pub mod function;
pub mod table;
pub mod text;

use crate::function::{same_function, Function, FunctionView};
use crate::table::{lemma_last_insertion_wins, map_of, Table};
use crate::text::{lowercase, string_from_str, to_lowercase};

verus! {

/// The games whose plugins and files conditions can be evaluated against.
///
/// The variants keep their order, as their positions are used as constants in
/// the C API.
#[derive(Clone, Copy, Debug, PartialEq, Eq, Hash, Structural)]
pub enum GameType {
    Oblivion,
    Skyrim,
    SkyrimSE,
    SkyrimVR,
    Fallout3,
    FalloutNV,
    Fallout4,
    Fallout4VR,
    Morrowind,
    Starfield,
}

impl GameType {
    /// Whether the game supports light plugins (those with a `.esl` extension).
    pub open spec fn spec_supports_light_plugins(self) -> bool {
        self is SkyrimSE || self is SkyrimVR || self is Fallout4 || self is Fallout4VR
            || self is Starfield
    }

    pub fn supports_light_plugins(self) -> (r: bool)
        ensures
            r == self.spec_supports_light_plugins(),
    {
        match self {
            GameType::SkyrimSE | GameType::SkyrimVR | GameType::Fallout4 | GameType::Fallout4VR
            | GameType::Starfield => true,
            _ => false,
        }
    }
}

/// What a state holds, as mathematical values.
pub struct StateView {
    pub game_type: GameType,
    pub data_path: Seq<char>,
    pub additional_data_paths: Seq<Seq<char>>,
    pub loot_path: Seq<char>,
    /// Lowercased plugin filenames.
    pub active_plugins: Set<Seq<char>>,
    /// Checksums by lowercased path.
    pub crc_cache: Map<Seq<char>, u32>,
    /// Versions by lowercased plugin filename.
    pub plugin_versions: Map<Seq<char>, Seq<char>>,
    /// Functions already evaluated, and their results.
    pub condition_cache: Seq<(FunctionView, bool)>,
}

/// What conditions are evaluated against: the game, its data folders, the
/// active plugins, plugin versions, and caches of checksums and results.
#[derive(Debug)]
pub struct State {
    game_type: GameType,
    /// Game Data folder path.
    data_path: String,
    /// Other directories that may contain plugins and other game files, used
    /// before `data_path` and in the order they are listed.
    additional_data_paths: Vec<String>,
    /// The path that the special name `LOOT` stands for.
    loot_path: String,
    /// Lowercased plugin filenames.
    active_plugins: Vec<String>,
    /// Lowercased paths.
    crc_cache: Table<u32>,
    /// Lowercased plugin filenames and their versions as found in description
    /// fields.
    plugin_versions: Table<String>,
    /// Conditions that have already been evaluated, and their results.
    condition_cache: Vec<(Function, bool)>,
}

pub open spec fn string_views(s: Seq<String>) -> Seq<Seq<char>> {
    s.map_values(|x: String| x@)
}

/// The results cached for functions, as pairs.
pub open spec fn cached_views(s: Seq<(Function, bool)>) -> Seq<(FunctionView, bool)> {
    s.map_values(|e: (Function, bool)| (e.0@, e.1))
}

/// The result cached for a function: that of the last entry for the same
/// function.
pub open spec fn cached_result<T>(cache: Seq<(FunctionView, T)>, f: FunctionView) -> Option<T>
    decreases cache.len(),
{
    if cache.len() == 0 {
        None
    } else if same_function(cache.last().0, f) {
        Some(cache.last().1)
    } else {
        cached_result(cache.drop_last(), f)
    }
}

/// The active plugins that a list of names gives: the names, lowercased.
pub open spec fn lowercased_set(names: Seq<&str>) -> Set<Seq<char>> {
    names.map_values(|n: &str| lowercase(n@)).to_set()
}

/// The versions that a list of plugins and versions gives, by lowercased
/// plugin name; the last version listed for a name wins.
pub open spec fn version_map(versions: Seq<(&str, &str)>) -> Map<Seq<char>, Seq<char>> {
    map_of(versions.map_values(|p: (&str, &str)| (lowercase(p.0@), p.1@)))
}

/// The checksums that a list of paths and checksums gives, by lowercased
/// path; the last checksum listed for a path wins.
pub open spec fn crc_map(crcs: Seq<(&str, u32)>) -> Map<Seq<char>, u32> {
    map_of(crcs.map_values(|p: (&str, u32)| (lowercase(p.0@), p.1)))
}

impl View for State {
    type V = StateView;

    closed spec fn view(&self) -> StateView {
        StateView {
            game_type: self.game_type,
            data_path: self.data_path@,
            additional_data_paths: string_views(self.additional_data_paths@),
            loot_path: self.loot_path@,
            active_plugins: string_views(self.active_plugins@).to_set(),
            crc_cache: self.crc_cache@,
            plugin_versions: self.plugin_versions@.map_values(|v: String| v@),
            condition_cache: cached_views(self.condition_cache@),
        }
    }
}

/// Whether a list of strings holds one equal to the given one.
pub fn contains_string(v: &Vec<String>, s: &String) -> (r: bool)
    ensures
        r == string_views(v@).contains(s@),
{
    let mut i: usize = 0;
    while i < v.len()
        invariant
            i <= v@.len(),
            forall|k: int| 0 <= k < i ==> v@[k]@ != s@,
        decreases v@.len() - i,
    {
        if v[i] == *s {
            assert(string_views(v@)[i as int] == s@);
            return true;
        }
        i = i + 1;
    }
    assert(!string_views(v@).contains(s@));
    false
}

impl State {
    #[verifier::type_invariant]
    closed spec fn active_plugins_distinct(self) -> bool {
        string_views(self.active_plugins@).no_duplicates()
    }

    /// A state for a game and its data folder, with nothing else set.
    pub fn new(game_type: GameType, data_path: String) -> (r: State)
        ensures
            r@.game_type == game_type,
            r@.data_path == data_path@,
            r@.additional_data_paths == Seq::<Seq<char>>::empty(),
            r@.loot_path == Seq::<char>::empty(),
            r@.active_plugins == Set::<Seq<char>>::empty(),
            r@.crc_cache == Map::<Seq<char>, u32>::empty(),
            r@.plugin_versions == Map::<Seq<char>, Seq<char>>::empty(),
            r@.condition_cache == Seq::<(FunctionView, bool)>::empty(),
    {
        let r = State {
            game_type,
            data_path,
            additional_data_paths: Vec::new(),
            loot_path: String::new(),
            active_plugins: Vec::new(),
            crc_cache: Table::new(),
            plugin_versions: Table::new(),
            condition_cache: Vec::new(),
        };
        assert(string_views(r.additional_data_paths@) =~= Seq::empty());
        assert(string_views(r.active_plugins@) =~= Seq::empty());
        assert(string_views(r.active_plugins@).to_set() =~= Set::empty());
        assert(r.plugin_versions@.map_values(|v: String| v@) =~= Map::empty());
        assert(cached_views(r.condition_cache@) =~= Seq::empty());
        r
    }

    /// The state with the given plugin versions.
    pub fn with_plugin_versions(self, plugin_versions: &[(&str, &str)]) -> (r: State)
        ensures
            r@ == (StateView { plugin_versions: version_map(plugin_versions@), ..self@ }),
    {
        let mut s = self;
        s.set_plugin_versions(plugin_versions);
        s
    }

    /// The state with the given active plugins.
    pub fn with_active_plugins(self, active_plugins: &[&str]) -> (r: State)
        ensures
            r@ == (StateView { active_plugins: lowercased_set(active_plugins@), ..self@ }),
    {
        let mut s = self;
        s.set_active_plugins(active_plugins);
        s
    }

    /// The state with the path that the name `LOOT` stands for.
    pub fn with_loot_path(self, loot_path: &str) -> (r: State)
        ensures
            r@ == (StateView { loot_path: loot_path@, ..self@ }),
    {
        let mut s = self;
        proof {
            use_type_invariant(&s);
        }
        s.loot_path = string_from_str(loot_path);
        s
    }

    /// Replaces the active plugins by the given ones, lowercased.
    pub fn set_active_plugins(&mut self, active_plugins: &[&str])
        ensures
            final(self)@ == (StateView { active_plugins: lowercased_set(active_plugins@), ..old(self)@ }),
    {
        proof {
            use_type_invariant(&*self);
        }
        let mut names: Vec<String> = Vec::new();
        let mut i: usize = 0;
        assert(string_views(names@).to_set() =~= active_plugins@.take(0).map_values(
            |n: &str| lowercase(n@),
        ).to_set());
        while i < active_plugins.len()
            invariant
                i <= active_plugins@.len(),
                string_views(names@).no_duplicates(),
                string_views(names@).to_set() == active_plugins@.take(i as int).map_values(
                    |n: &str| lowercase(n@),
                ).to_set(),
            decreases active_plugins@.len() - i,
        {
            let ghost prev = string_views(names@);
            let name = to_lowercase(active_plugins[i]);
            let ghost nv = name@;
            let ghost target = active_plugins@.take(i as int).map_values(|n: &str| lowercase(n@));
            let present = contains_string(&names, &name);
            if !present {
                names.push(name);
                assert(string_views(names@) =~= prev.push(nv));
                proof {
                    prev.lemma_push_to_set_commute(nv);
                }
            } else {
                assert(prev.to_set().contains(nv));
                assert(prev.to_set().insert(nv) =~= prev.to_set());
            }
            assert(active_plugins@.take(i + 1).map_values(|n: &str| lowercase(n@))
                =~= target.push(nv));
            proof {
                target.lemma_push_to_set_commute(nv);
            }
            assert(string_views(names@).to_set() =~= active_plugins@.take(i + 1).map_values(
                |n: &str| lowercase(n@),
            ).to_set());
            i = i + 1;
        }
        assert(active_plugins@.take(i as int) =~= active_plugins@);
        self.active_plugins = names;
    }

    /// Replaces the plugin versions by the given ones, keyed by lowercased
    /// plugin name.
    pub fn set_plugin_versions(&mut self, plugin_versions: &[(&str, &str)])
        ensures
            final(self)@ == (StateView { plugin_versions: version_map(plugin_versions@), ..old(self)@ }),
    {
        proof {
            use_type_invariant(&*self);
        }
        let ghost entries = plugin_versions@.map_values(|p: (&str, &str)| (lowercase(p.0@), p.1@));
        let mut table: Table<String> = Table::new();
        let mut i: usize = 0;
        assert(entries.take(0) =~= Seq::empty());
        assert(table@.map_values(|v: String| v@) =~= Map::empty());
        while i < plugin_versions.len()
            invariant
                i <= plugin_versions@.len(),
                entries == plugin_versions@.map_values(|p: (&str, &str)| (lowercase(p.0@), p.1@)),
                table@.map_values(|v: String| v@) == map_of(entries.take(i as int)),
            decreases plugin_versions@.len() - i,
        {
            let (name, version) = plugin_versions[i];
            let key = to_lowercase(name);
            let value = string_from_str(version);
            let ghost before = table@;
            table.insert(key, value);
            assert(entries.take(i + 1).drop_last() =~= entries.take(i as int));
            assert(table@.map_values(|v: String| v@) =~= before.map_values(|v: String| v@).insert(
                lowercase(name@),
                version@,
            ));
            i = i + 1;
        }
        assert(entries.take(i as int) =~= entries);
        self.plugin_versions = table;
    }

    /// Replaces the cached checksums by the given ones, keyed by lowercased
    /// path.
    pub fn set_cached_crcs(&mut self, plugin_crcs: &[(&str, u32)])
        ensures
            final(self)@ == (StateView { crc_cache: crc_map(plugin_crcs@), ..old(self)@ }),
    {
        proof {
            use_type_invariant(&*self);
        }
        let ghost entries = plugin_crcs@.map_values(|p: (&str, u32)| (lowercase(p.0@), p.1));
        let mut table: Table<u32> = Table::new();
        let mut i: usize = 0;
        assert(entries.take(0) =~= Seq::empty());
        while i < plugin_crcs.len()
            invariant
                i <= plugin_crcs@.len(),
                entries == plugin_crcs@.map_values(|p: (&str, u32)| (lowercase(p.0@), p.1)),
                table@ == map_of(entries.take(i as int)),
            decreases plugin_crcs@.len() - i,
        {
            let (name, crc) = plugin_crcs[i];
            let key = to_lowercase(name);
            table.insert(key, crc);
            assert(entries.take(i + 1).drop_last() =~= entries.take(i as int));
            i = i + 1;
        }
        assert(entries.take(i as int) =~= entries);
        self.crc_cache = table;
    }

    /// Forgets every cached function result.
    pub fn clear_condition_cache(&mut self)
        ensures
            final(self)@ == (StateView { condition_cache: Seq::empty(), ..old(self)@ }),
    {
        proof {
            use_type_invariant(&*self);
        }
        self.condition_cache = Vec::new();
        assert(cached_views(self.condition_cache@) =~= Seq::empty());
    }

    /// Replaces the additional data paths.
    pub fn set_additional_data_paths(&mut self, additional_data_paths: Vec<String>)
        ensures
            final(self)@ == (StateView {
                additional_data_paths: string_views(additional_data_paths@),
                ..old(self)@
            }),
    {
        proof {
            use_type_invariant(&*self);
        }
        self.additional_data_paths = additional_data_paths;
    }

    pub fn game_type(&self) -> (r: GameType)
        ensures
            r == self@.game_type,
    {
        self.game_type
    }

    pub fn data_path(&self) -> (r: &str)
        ensures
            r@ == self@.data_path,
    {
        self.data_path.as_str()
    }

    pub fn loot_path(&self) -> (r: &str)
        ensures
            r@ == self@.loot_path,
    {
        self.loot_path.as_str()
    }

    pub fn additional_data_paths(&self) -> (r: &Vec<String>)
        ensures
            string_views(r@) == self@.additional_data_paths,
    {
        &self.additional_data_paths
    }

    pub fn active_plugins(&self) -> (r: &Vec<String>)
        ensures
            string_views(r@).to_set() == self@.active_plugins,
            string_views(r@).no_duplicates(),
    {
        proof {
            use_type_invariant(self);
        }
        &self.active_plugins
    }

    /// The cached checksum of a path, by its lowercased form.
    pub fn cached_crc(&self, lowercased_path: &str) -> (r: Option<u32>)
        ensures
            match r {
                Some(c) => self@.crc_cache.dom().contains(lowercased_path@)
                    && self@.crc_cache[lowercased_path@] == c,
                None => !self@.crc_cache.dom().contains(lowercased_path@),
            },
    {
        match self.crc_cache.get(lowercased_path) {
            Some(c) => Some(*c),
            None => None,
        }
    }

    /// Caches the checksum of a path, by its lowercased form.
    pub fn cache_crc(&mut self, lowercased_path: String, crc: u32)
        ensures
            final(self)@ == (StateView {
                crc_cache: old(self)@.crc_cache.insert(lowercased_path@, crc),
                ..old(self)@
            }),
    {
        proof {
            use_type_invariant(&*self);
        }
        let mut table: Table<u32> = Table::new();
        std::mem::swap(&mut table, &mut self.crc_cache);
        table.insert(lowercased_path, crc);
        self.crc_cache = table;
    }

    /// The version recorded for a plugin, by its lowercased filename.
    pub fn plugin_version(&self, lowercased_name: &str) -> (r: Option<&String>)
        ensures
            match r {
                Some(v) => self@.plugin_versions.dom().contains(lowercased_name@)
                    && self@.plugin_versions[lowercased_name@] == v@,
                None => !self@.plugin_versions.dom().contains(lowercased_name@),
            },
    {
        self.plugin_versions.get(lowercased_name)
    }

    /// The cached result of a function, if there is one.
    pub fn cached_condition(&self, function: &Function) -> (r: Option<bool>)
        ensures
            r == cached_result(self@.condition_cache, function@),
    {
        let ghost all = cached_views(self.condition_cache@);
        let mut i: usize = self.condition_cache.len();
        assert(all.take(i as int) =~= all);
        while i > 0
            invariant
                i <= self.condition_cache@.len(),
                all == cached_views(self.condition_cache@),
                cached_result(all, function@) == cached_result(all.take(i as int), function@),
            decreases i,
        {
            let entry = &self.condition_cache[i - 1];
            assert(all.take(i as int).drop_last() =~= all.take(i - 1));
            if entry.0 == *function {
                return Some(entry.1);
            }
            i = i - 1;
        }
        None
    }

    /// Caches the result of a function.
    pub fn cache_condition(&mut self, function: Function, result: bool)
        ensures
            final(self)@ == (StateView {
                condition_cache: old(self)@.condition_cache.push((function@, result)),
                ..old(self)@
            }),
    {
        proof {
            use_type_invariant(&*self);
        }
        let ghost f = function@;
        let mut cache: Vec<(Function, bool)> = Vec::new();
        std::mem::swap(&mut cache, &mut self.condition_cache);
        cache.push((function, result));
        self.condition_cache = cache;
        assert(cached_views(self.condition_cache@) =~= cached_views(old(self).condition_cache@).push((f, result)));
    }
}

/// A result cached for a function is what a later lookup of the same
/// function gives, whatever was cached before.
pub proof fn lemma_cached_result_after_insert(
    cache: Seq<(FunctionView, bool)>,
    f: FunctionView,
    result: bool,
    g: FunctionView,
)
    ensures
        same_function(f, g) ==> cached_result(cache.push((f, result)), g) == Some(result),
        !same_function(f, g) ==> cached_result(cache.push((f, result)), g) == cached_result(
            cache,
            g,
        ),
{
    assert(cache.push((f, result)).drop_last() =~= cache);
}

/// Functions that are the same have the same cached result.
pub proof fn lemma_cached_result_respects_sameness<T>(
    cache: Seq<(FunctionView, T)>,
    f: FunctionView,
    g: FunctionView,
)
    requires
        same_function(f, g),
    ensures
        cached_result(cache, f) == cached_result(cache, g),
    decreases cache.len(),
{
    if cache.len() > 0 {
        crate::function::lemma_same_function_is_equivalence(cache.last().0, f, g);
        crate::function::lemma_same_function_is_equivalence(cache.last().0, g, f);
        crate::function::lemma_same_function_is_equivalence(f, g, f);
        lemma_cached_result_respects_sameness(cache.drop_last(), f, g);
    }
}

/// Once plugin versions are set from a list, the version recorded for a
/// lowercased plugin name is that of the last entry whose name lowercases to
/// it.
pub proof fn lemma_last_plugin_version_wins(versions: Seq<(&str, &str)>, i: int)
    requires
        0 <= i < versions.len(),
        forall|j: int|
            i < j < versions.len() ==> lowercase(versions[j].0@) != lowercase(versions[i].0@),
    ensures
        version_map(versions).dom().contains(lowercase(versions[i].0@)),
        version_map(versions)[lowercase(versions[i].0@)] == versions[i].1@,
{
    let s = versions.map_values(|p: (&str, &str)| (lowercase(p.0@), p.1@));
    lemma_last_insertion_wins(s, lowercase(versions[i].0@));
    assert forall|j: int| i < j < s.len() implies s[j].0 != lowercase(versions[i].0@) by {}
    assert(s[i].0 == lowercase(versions[i].0@));
}

/// Once checksums are set from a list, the checksum cached for a lowercased
/// path is that of the last entry whose path lowercases to it.
pub proof fn lemma_last_cached_crc_wins(crcs: Seq<(&str, u32)>, i: int)
    requires
        0 <= i < crcs.len(),
        forall|j: int| i < j < crcs.len() ==> lowercase(crcs[j].0@) != lowercase(crcs[i].0@),
    ensures
        crc_map(crcs).dom().contains(lowercase(crcs[i].0@)),
        crc_map(crcs)[lowercase(crcs[i].0@)] == crcs[i].1,
{
    let s = crcs.map_values(|p: (&str, u32)| (lowercase(p.0@), p.1));
    lemma_last_insertion_wins(s, lowercase(crcs[i].0@));
    assert forall|j: int| i < j < s.len() implies s[j].0 != lowercase(crcs[i].0@) by {}
    assert(s[i].0 == lowercase(crcs[i].0@));
}

} // verus!