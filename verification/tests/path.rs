use std::path::{Path, PathBuf};

use loot_condition_interpreter::function::path::{
    add_ghost_extension, has_plugin_file_extension, has_unghosted_plugin_file_extension,
    is_unghosted_plugin_file_extension, resolve_candidates,
};
use loot_condition_interpreter::{GameType, State};

/// Creates an empty file at the path.
fn create_file(path: &Path) {
    let file = tempfile::NamedTempFile::new_in(path.parent().unwrap()).unwrap();
    file.persist(path).unwrap();
}

fn resolve_path(state: &State, path: &Path) -> PathBuf {
    let path = path.to_str().unwrap();
    let exists: Vec<bool> = resolve_candidates(state, path)
        .iter()
        .map(|p| Path::new(p).exists())
        .collect();
    PathBuf::from(loot_condition_interpreter::function::path::resolve_path(state, path, &exists))
}

#[test]
fn is_unghosted_plugin_file_extension_should_be_true_for_esp_for_all_game_types() {
        let extension = ("Esp");

        assert!(is_unghosted_plugin_file_extension(
            GameType::Morrowind,
            extension
        ));
        assert!(is_unghosted_plugin_file_extension(
            GameType::Oblivion,
            extension
        ));
        assert!(is_unghosted_plugin_file_extension(
            GameType::Skyrim,
            extension
        ));
        assert!(is_unghosted_plugin_file_extension(
            GameType::SkyrimSE,
            extension
        ));
        assert!(is_unghosted_plugin_file_extension(
            GameType::SkyrimVR,
            extension
        ));
        assert!(is_unghosted_plugin_file_extension(
            GameType::Fallout3,
            extension
        ));
        assert!(is_unghosted_plugin_file_extension(
            GameType::FalloutNV,
            extension
        ));
        assert!(is_unghosted_plugin_file_extension(
            GameType::Fallout4,
            extension
        ));
        assert!(is_unghosted_plugin_file_extension(
            GameType::Fallout4VR,
            extension
        ));
    }

#[test]
fn is_unghosted_plugin_file_extension_should_be_true_for_esm_for_all_game_types() {
        let extension = ("Esm");

        assert!(is_unghosted_plugin_file_extension(
            GameType::Morrowind,
            extension
        ));
        assert!(is_unghosted_plugin_file_extension(
            GameType::Oblivion,
            extension
        ));
        assert!(is_unghosted_plugin_file_extension(
            GameType::Skyrim,
            extension
        ));
        assert!(is_unghosted_plugin_file_extension(
            GameType::SkyrimSE,
            extension
        ));
        assert!(is_unghosted_plugin_file_extension(
            GameType::SkyrimVR,
            extension
        ));
        assert!(is_unghosted_plugin_file_extension(
            GameType::Fallout3,
            extension
        ));
        assert!(is_unghosted_plugin_file_extension(
            GameType::FalloutNV,
            extension
        ));
        assert!(is_unghosted_plugin_file_extension(
            GameType::Fallout4,
            extension
        ));
        assert!(is_unghosted_plugin_file_extension(
            GameType::Fallout4VR,
            extension
        ));
    }

#[test]
fn is_unghosted_plugin_file_extension_should_be_true_for_esl_for_tes5se_tes5vr_fo4_and_fo4vr() {
        let extension = ("Esl");

        assert!(is_unghosted_plugin_file_extension(
            GameType::SkyrimSE,
            extension
        ));
        assert!(is_unghosted_plugin_file_extension(
            GameType::SkyrimVR,
            extension
        ));
        assert!(is_unghosted_plugin_file_extension(
            GameType::Fallout4,
            extension
        ));
        assert!(is_unghosted_plugin_file_extension(
            GameType::Fallout4VR,
            extension
        ));
    }

#[test]
fn is_unghosted_plugin_file_extension_should_be_false_for_esl_for_tes3_to_5_fo3_and_fonv() {
        let extension = ("Esl");

        assert!(!is_unghosted_plugin_file_extension(
            GameType::Morrowind,
            extension
        ));
        assert!(!is_unghosted_plugin_file_extension(
            GameType::Oblivion,
            extension
        ));
        assert!(!is_unghosted_plugin_file_extension(
            GameType::Skyrim,
            extension
        ));
        assert!(!is_unghosted_plugin_file_extension(
            GameType::Fallout3,
            extension
        ));
        assert!(!is_unghosted_plugin_file_extension(
            GameType::FalloutNV,
            extension
        ));
    }

#[test]
fn is_unghosted_plugin_file_extension_should_be_false_for_ghost_for_all_game_types() {
        let extension = ("Ghost");

        assert!(!is_unghosted_plugin_file_extension(
            GameType::Morrowind,
            extension
        ));
        assert!(!is_unghosted_plugin_file_extension(
            GameType::Oblivion,
            extension
        ));
        assert!(!is_unghosted_plugin_file_extension(
            GameType::Skyrim,
            extension
        ));
        assert!(!is_unghosted_plugin_file_extension(
            GameType::SkyrimSE,
            extension
        ));
        assert!(!is_unghosted_plugin_file_extension(
            GameType::SkyrimVR,
            extension
        ));
        assert!(!is_unghosted_plugin_file_extension(
            GameType::Fallout3,
            extension
        ));
        assert!(!is_unghosted_plugin_file_extension(
            GameType::FalloutNV,
            extension
        ));
        assert!(!is_unghosted_plugin_file_extension(
            GameType::Fallout4,
            extension
        ));
        assert!(!is_unghosted_plugin_file_extension(
            GameType::Fallout4VR,
            extension
        ));
    }

#[test]
fn is_unghosted_plugin_file_extension_should_be_false_for_non_esp_esm_esl_for_all_game_types() {
        let extension = ("txt");

        assert!(!is_unghosted_plugin_file_extension(
            GameType::Morrowind,
            extension
        ));
        assert!(!is_unghosted_plugin_file_extension(
            GameType::Oblivion,
            extension
        ));
        assert!(!is_unghosted_plugin_file_extension(
            GameType::Skyrim,
            extension
        ));
        assert!(!is_unghosted_plugin_file_extension(
            GameType::SkyrimSE,
            extension
        ));
        assert!(!is_unghosted_plugin_file_extension(
            GameType::SkyrimVR,
            extension
        ));
        assert!(!is_unghosted_plugin_file_extension(
            GameType::Fallout3,
            extension
        ));
        assert!(!is_unghosted_plugin_file_extension(
            GameType::FalloutNV,
            extension
        ));
        assert!(!is_unghosted_plugin_file_extension(
            GameType::Fallout4,
            extension
        ));
        assert!(!is_unghosted_plugin_file_extension(
            GameType::Fallout4VR,
            extension
        ));
    }

#[test]
fn has_unghosted_plugin_file_extension_should_return_false_if_the_path_has_no_extension() {
        assert!(!has_unghosted_plugin_file_extension(
            GameType::Skyrim,
            "file"
        ));
    }

#[test]
fn has_unghosted_plugin_file_extension_should_return_false_if_the_path_has_a_non_plugin_extension() {
        assert!(!has_unghosted_plugin_file_extension(
            GameType::Skyrim,
            "plugin.bsa"
        ));
    }

#[test]
fn has_unghosted_plugin_file_extension_should_return_false_if_the_path_has_a_ghosted_plugin_extension() {
        assert!(!has_unghosted_plugin_file_extension(
            GameType::Skyrim,
            "plugin.esp.ghost"
        ));
    }

#[test]
fn has_unghosted_plugin_file_extension_should_return_true_if_the_path_has_an_unghosted_plugin_extension() {
        assert!(has_unghosted_plugin_file_extension(
            GameType::Skyrim,
            "plugin.esp"
        ));
    }

#[test]
fn has_plugin_file_extension_should_return_true_if_the_path_has_an_unghosted_plugin_extension() {
        assert!(has_plugin_file_extension(
            GameType::Skyrim,
            "plugin.esp"
        ));
    }

#[test]
fn has_plugin_file_extension_should_return_true_if_the_path_has_a_ghosted_plugin_extension() {
        assert!(has_plugin_file_extension(
            GameType::Skyrim,
            "plugin.esp.Ghost"
        ));
    }

#[test]
fn has_plugin_file_extension_should_return_false_if_the_path_has_a_non_plugin_extension() {
        assert!(!has_plugin_file_extension(
            GameType::Skyrim,
            "plugin.bsa"
        ));
    }

#[test]
fn has_plugin_file_extension_should_return_false_if_the_path_has_a_ghosted_non_plugin_extension() {
        assert!(!has_plugin_file_extension(
            GameType::Skyrim,
            "plugin.bsa.Ghost"
        ));
    }

#[test]
fn has_plugin_file_extension_should_return_false_if_the_path_has_only_ghost_extension() {
        assert!(!has_plugin_file_extension(
            GameType::Skyrim,
            "plugin.Ghost"
        ));
    }

#[test]
fn has_plugin_file_extension_should_return_false_if_the_path_has_no_extension() {
        assert!(!has_plugin_file_extension(
            GameType::Skyrim,
            "plugin"
        ));
    }

#[test]
fn add_ghost_extension_should_add_dot_ghost_to_an_existing_extension() {
        let path = PathBuf::from(add_ghost_extension("plugin.esp"));
        assert_eq!(PathBuf::from("plugin.esp.ghost"), path);
    }

#[test]
fn add_ghost_extension_should_add_dot_ghost_to_an_a_path_with_no_extension() {
        let path = PathBuf::from(add_ghost_extension("plugin"));
        assert_eq!(PathBuf::from("plugin.ghost"), path);
    }

#[test]
fn resolve_path_should_return_the_data_path_prefixed_path_if_it_exists() {
        let data_path = PathBuf::from(".");
        let state = State::new(GameType::Skyrim, data_path.to_str().unwrap().to_string());
        let input_path = Path::new("README.md");
        let resolved_path = resolve_path(&state, input_path);

        assert_eq!(data_path.join(input_path), resolved_path);
    }

#[test]
fn resolve_path_should_return_the_data_path_prefixed_path_if_it_does_not_exist_and_is_not_an_unghosted_plugin_filename() {
        let data_path = PathBuf::from(".");
        let state = State::new(GameType::Skyrim, data_path.to_str().unwrap().to_string());
        let input_path = Path::new("plugin.esp.ghost");
        let resolved_path = resolve_path(&state, input_path);

        assert_eq!(data_path.join(input_path), resolved_path);

        let input_path = Path::new("file.txt");
        let resolved_path = resolve_path(&state, input_path);

        assert_eq!(data_path.join(input_path), resolved_path);
    }

#[test]
fn resolve_path_should_return_the_given_data_relative_path_plus_a_ghost_extension_if_the_plugin_path_does_not_exist() {
        let data_path = PathBuf::from(".");
        let state = State::new(GameType::Skyrim, data_path.to_str().unwrap().to_string());
        let input_path = Path::new("plugin.esp");
        let resolved_path = resolve_path(&state, input_path);

        assert_eq!(
            data_path.join(input_path.with_extension("esp.ghost")),
            resolved_path
        );
    }

#[test]
fn resolve_path_should_check_external_data_paths_in_order_before_data_path() {
    let tmp_dir = tempfile::tempdir().unwrap();
    let external_data_dir_1 = tempfile::tempdir_in(tmp_dir.path()).unwrap();
    let external_data_dir_2 = tempfile::tempdir_in(tmp_dir.path()).unwrap();
    let data_dir = tempfile::tempdir_in(tmp_dir.path()).unwrap();
    let external_data_path_1 = external_data_dir_1.path().to_path_buf();
    let external_data_path_2 = external_data_dir_2.path().to_path_buf();
    let data_path = data_dir.path().to_path_buf();

    create_file(&external_data_path_2.join("Cargo.toml"));
    create_file(&data_path.join("Cargo.toml"));

    let mut state = State::new(GameType::Skyrim, data_path.to_str().unwrap().to_string());
    state.set_additional_data_paths(vec![
        external_data_path_1.to_str().unwrap().to_string(),
        external_data_path_2.to_str().unwrap().to_string(),
    ]);

    let input_path = Path::new("Cargo.toml");
    let resolved_path = resolve_path(&state, input_path);

    assert_eq!(external_data_path_2.join(input_path), resolved_path);
}
