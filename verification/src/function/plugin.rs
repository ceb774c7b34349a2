//! What the plugin headers of the games say, as the `esplugin` crate reads
//! them: whether a plugin is a master, and its description.
use vstd::prelude::*;

use crate::GameType;

verus! {

/// The games as `esplugin` tells them apart.
#[derive(Clone, Copy, Debug, PartialEq, Eq, Structural)]
pub enum PluginGame {
    Oblivion,
    Skyrim,
    Fallout3,
    FalloutNV,
    Morrowind,
    Fallout4,
    SkyrimSE,
    Starfield,
}

/// The game whose plugin format a game uses: the VR editions share those of
/// the games they came from.
pub open spec fn plugin_game_of(game: GameType) -> PluginGame {
    match game {
        GameType::Morrowind => PluginGame::Morrowind,
        GameType::Oblivion => PluginGame::Oblivion,
        GameType::Skyrim => PluginGame::Skyrim,
        GameType::SkyrimSE => PluginGame::SkyrimSE,
        GameType::SkyrimVR => PluginGame::SkyrimSE,
        GameType::Fallout3 => PluginGame::Fallout3,
        GameType::FalloutNV => PluginGame::FalloutNV,
        GameType::Fallout4 => PluginGame::Fallout4,
        GameType::Fallout4VR => PluginGame::Fallout4,
        GameType::Starfield => PluginGame::Starfield,
    }
}

pub fn plugin_game(game: GameType) -> (r: PluginGame)
    ensures
        r == plugin_game_of(game),
{
    match game {
        GameType::Morrowind => PluginGame::Morrowind,
        GameType::Oblivion => PluginGame::Oblivion,
        GameType::Skyrim => PluginGame::Skyrim,
        GameType::SkyrimSE | GameType::SkyrimVR => PluginGame::SkyrimSE,
        GameType::Fallout3 => PluginGame::Fallout3,
        GameType::FalloutNV => PluginGame::FalloutNV,
        GameType::Fallout4 | GameType::Fallout4VR => PluginGame::Fallout4,
        GameType::Starfield => PluginGame::Starfield,
    }
}

/// Each game reads plugin headers in its own format: `esplugin`'s game of
/// the same name, the VR editions reading those of the games they came from.
pub proof fn lemma_each_game_reads_its_own_plugins(game: GameType)
    ensures
        game == GameType::Morrowind ==> plugin_game_of(game) == PluginGame::Morrowind,
        game == GameType::Oblivion ==> plugin_game_of(game) == PluginGame::Oblivion,
        game == GameType::Skyrim ==> plugin_game_of(game) == PluginGame::Skyrim,
        game == GameType::SkyrimSE ==> plugin_game_of(game) == PluginGame::SkyrimSE,
        game == GameType::SkyrimVR ==> plugin_game_of(game) == PluginGame::SkyrimSE,
        game == GameType::Fallout3 ==> plugin_game_of(game) == PluginGame::Fallout3,
        game == GameType::FalloutNV ==> plugin_game_of(game) == PluginGame::FalloutNV,
        game == GameType::Fallout4 ==> plugin_game_of(game) == PluginGame::Fallout4,
        game == GameType::Fallout4VR ==> plugin_game_of(game) == PluginGame::Fallout4,
        game == GameType::Starfield ==> plugin_game_of(game) == PluginGame::Starfield,
{
}

/// Two games read plugin headers alike exactly when they are the same game
/// or one is the VR edition of the other.
pub proof fn lemma_games_share_plugin_formats_only_with_their_vr_editions(a: GameType, b: GameType)
    ensures
        (plugin_game_of(a) == plugin_game_of(b)) <==> (a == b || (a == GameType::SkyrimSE && b
            == GameType::SkyrimVR) || (a == GameType::SkyrimVR && b == GameType::SkyrimSE) || (a
            == GameType::Fallout4 && b == GameType::Fallout4VR) || (a == GameType::Fallout4VR && b
            == GameType::Fallout4)),
{
}

#[verifier::external_type_specification]
#[verifier::external_body]
pub struct ExGameId(esplugin::GameId);

/// The `esplugin::GameId` variant of the same name.
#[verifier::external_body]
fn game_id(game: PluginGame) -> esplugin::GameId {
    match game {
        PluginGame::Oblivion => esplugin::GameId::Oblivion,
        PluginGame::Skyrim => esplugin::GameId::Skyrim,
        PluginGame::Fallout3 => esplugin::GameId::Fallout3,
        PluginGame::FalloutNV => esplugin::GameId::FalloutNV,
        PluginGame::Morrowind => esplugin::GameId::Morrowind,
        PluginGame::Fallout4 => esplugin::GameId::Fallout4,
        PluginGame::SkyrimSE => esplugin::GameId::SkyrimSE,
        PluginGame::Starfield => esplugin::GameId::Starfield,
    }
}

/// What parsing a plugin's header with `Plugin::parse_reader` (header only)
/// and then asking `Plugin::is_master_file` gives for a game, the plugin's
/// path and its bytes: nothing where the header does not parse.
pub uninterp spec fn header_is_master(game: PluginGame, path: Seq<char>, bytes: Seq<u8>) -> Option<bool>;

/// What parsing a plugin's header with `Plugin::parse_reader` (header only)
/// and then asking `Plugin::description` gives for a game, the plugin's path
/// and its bytes: nothing where the header does not parse or the description
/// cannot be read, else the description if the header has one.
pub uninterp spec fn header_description(game: PluginGame, path: Seq<char>, bytes: Seq<u8>) -> Option<Option<Seq<char>>>;

/// Parses the header of the plugin at `path` from its bytes with
/// `esplugin::Plugin::parse_reader` and reports `Plugin::is_master_file`.
#[verifier::external_body]
pub fn plugin_is_master(game: PluginGame, path: &str, bytes: &[u8]) -> (r: Option<bool>)
    ensures
        r == header_is_master(game, path@, bytes@),
{
    let mut plugin = esplugin::Plugin::new(game_id(game), std::path::Path::new(path));
    match plugin.parse_reader(std::io::Cursor::new(bytes), esplugin::ParseOptions::header_only()) {
        Ok(()) => Some(plugin.is_master_file()),
        Err(_) => None,
    }
}

/// Parses the header of the plugin at `path` from its bytes with
/// `esplugin::Plugin::parse_reader` and reports `Plugin::description`.
#[verifier::external_body]
pub fn plugin_description(game: PluginGame, path: &str, bytes: &[u8]) -> (r: Option<Option<String>>)
    ensures
        match r {
            Some(Some(d)) => header_description(game, path@, bytes@) == Some(Some(d@)),
            Some(None) => header_description(game, path@, bytes@) == Some(None::<Seq<char>>),
            None => header_description(game, path@, bytes@) is None,
        },
{
    let mut plugin = esplugin::Plugin::new(game_id(game), std::path::Path::new(path));
    match plugin.parse_reader(std::io::Cursor::new(bytes), esplugin::ParseOptions::header_only()) {
        Ok(()) => plugin.description().ok(),
        Err(_) => None,
    }
}

} // verus!
