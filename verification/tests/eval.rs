use std::path::Path;

use loot_condition_interpreter::condition::{Evaluation, Expression};
use loot_condition_interpreter::error::Error;
use loot_condition_interpreter::function::eval::{Answer, Listing, Query, Step};
use loot_condition_interpreter::function::version::Version;
use loot_condition_interpreter::function::{ComparisonOperator, Function};
use loot_condition_interpreter::pattern::Regex;
use loot_condition_interpreter::{GameType, State};
use tempfile::tempdir;

fn list(path: &str) -> Listing {
    match Path::new(path).read_dir() {
        Err(_) => Listing::Unreadable,
        Ok(entries) => {
            let mut names = Vec::new();
            for entry in entries {
                match entry {
                    Ok(e) => names.push(e.file_name().to_str().map(String::from)),
                    Err(e) => return Listing::Entries(names, Some(e.to_string())),
                }
            }
            Listing::Entries(names, None)
        }
    }
}

fn answer(query: &Query) -> Answer {
    match query {
        Query::Exist(paths) => Answer::Flags(paths.iter().map(|p| Path::new(p).exists()).collect()),
        Query::IsDir(p) => Answer::Flag(Path::new(p).is_dir()),
        Query::IsFile(p) => Answer::Flag(Path::new(p).is_file()),
        Query::CanReadDir(p) => Answer::Flag(Path::new(p).read_dir().is_ok()),
        Query::CanOpen(p) => Answer::Flag(Path::new(p).metadata().is_ok()),
        Query::Size(p) => Answer::Size(Path::new(p).metadata().ok().map(|m| m.len())),
        Query::Read(p) => Answer::Contents(read_empty(p)),
        Query::List(paths) => Answer::Listings(paths.iter().map(|p| list(p)).collect()),
    }
}

/// The contents of a file that is known to be empty. These tests read no
/// other file contents.
fn read_empty(path: &str) -> Result<Vec<u8>, String> {
    match Path::new(path).metadata() {
        Ok(m) if m.is_file() && m.len() == 0 => Ok(Vec::new()),
        Ok(_) => Err("file contents are not read by these tests".to_string()),
        Err(e) => Err(e.to_string()),
    }
}

/// Evaluates a function against the file system, with the contents of the
/// named files taken from the given list.
fn eval_with_contents(
    function: &Function,
    state: &mut State,
    contents: &[(&str, Vec<u8>)],
) -> Result<bool, Error> {
    let mut answers = Vec::new();
    loop {
        match function.eval(state, &answers) {
            Step::Ask(Query::Read(p)) => {
                let name = Path::new(&p).file_name().and_then(|n| n.to_str()).unwrap_or("");
                let bytes = contents.iter().find(|(n, _)| *n == name).map(|(_, b)| b.clone());
                answers.push(Answer::Contents(bytes.ok_or_else(|| "no such file".to_string())));
            }
            Step::Ask(query) => answers.push(answer(&query)),
            Step::Done(result) => return result,
        }
    }
}

fn le16(v: &mut Vec<u8>, x: u16) {
    v.extend_from_slice(&x.to_le_bytes());
}

fn le32(v: &mut Vec<u8>, x: u32) {
    v.extend_from_slice(&x.to_le_bytes());
}

/// The header record of an Oblivion plugin with the given record flags
/// (bit 0 marks a master).
fn plugin_header(flags: u32) -> Vec<u8> {
    let mut data = Vec::new();
    data.extend_from_slice(b"HEDR");
    le16(&mut data, 12);
    le32(&mut data, 0x3F80_0000);
    le32(&mut data, 0);
    le32(&mut data, 0x800);

    let mut header = Vec::new();
    header.extend_from_slice(b"TES4");
    le32(&mut header, data.len() as u32);
    le32(&mut header, flags);
    le32(&mut header, 0);
    le32(&mut header, 0);
    header.extend(data);
    header
}

/// A folder with the given name inside another.
fn named_dir(parent: &Path, name: &str) -> tempfile::TempDir {
    tempfile::Builder::new().prefix(name).rand_bytes(0).tempdir_in(parent).unwrap()
}

/// A folder that holds `tests/testing-plugins/Oblivion/Data`, in which lie
/// empty files named as the test plugins are; the folders stay while the
/// returned handles live.
fn testing_plugins() -> (tempfile::TempDir, Vec<tempfile::TempDir>) {
    let root = tempdir().unwrap();
    let tests = named_dir(root.path(), "tests");
    let plugins = named_dir(tests.path(), "testing-plugins");
    let oblivion = named_dir(plugins.path(), "Oblivion");
    let data = named_dir(oblivion.path(), "Data");
    for name in ["Blank.esm", "Blank.esp", "Blank - Different.esp"] {
        create_file(&data.path().join(name));
    }
    (root, vec![data, oblivion, plugins, tests])
}

fn eval(function: &Function, state: &mut State) -> Result<bool, Error> {
    let mut answers = Vec::new();
    loop {
        match function.eval(state, &answers) {
            Step::Ask(query) => answers.push(answer(&query)),
            Step::Done(result) => return result,
        }
    }
}

#[allow(dead_code)]
fn eval_expression(expression: &Expression, state: &mut State) -> Result<bool, Error> {
    let mut known: Vec<(Function, Result<bool, Error>)> = Vec::new();
    loop {
        match expression.eval(&known) {
            Evaluation::Value(b) => return Ok(b),
            Evaluation::Failed(e) => return Err(e),
            Evaluation::Needs(function) => {
                let result = eval(&function, state);
                known.push((function, result));
            }
        }
    }
}

fn state<T: AsRef<Path>>(data_path: T) -> State {
    state_with_data(data_path, Vec::new(), "", &[], &[])
}

fn state_with_active_plugins<T: AsRef<Path>>(data_path: T, active_plugins: &[&str]) -> State {
    state_with_data(data_path, Vec::new(), "", active_plugins, &[])
}

fn state_with_loot_path<T: AsRef<Path>>(data_path: T, loot_path: &str) -> State {
    state_with_data(data_path, Vec::new(), loot_path, &[], &[])
}

fn state_with_versions<T: AsRef<Path>>(data_path: T, plugin_versions: &[(&str, &str)]) -> State {
    state_with_data(data_path, Vec::new(), "", &[], plugin_versions)
}

fn state_with_data<T: AsRef<Path>>(
    data_path: T,
    additional_data_paths: Vec<T>,
    loot_path: &str,
    active_plugins: &[&str],
    plugin_versions: &[(&str, &str)],
) -> State {
    let data_path = data_path.as_ref();
    assert!(data_path.exists());

    let additional_data_paths: Vec<String> = additional_data_paths
        .iter()
        .map(|p| {
            let p = p.as_ref();
            assert!(p.exists());
            p.to_str().unwrap().to_string()
        })
        .collect();

    let mut state = State::new(GameType::Oblivion, data_path.to_str().unwrap().to_string())
        .with_loot_path(loot_path)
        .with_active_plugins(active_plugins)
        .with_plugin_versions(plugin_versions);
    state.set_additional_data_paths(additional_data_paths);
    state
}

fn regex(string: &str) -> Regex {
    Regex::new(string).unwrap()
}

/// A file's product version where the path is a file. These tests read no
/// file contents: the only files they hand over are ones they created empty.
fn get_product_version(file_path: &Path) -> Result<Option<Version>, Error> {
    if file_path.is_file() {
        Version::read_product_version(file_path.to_str().unwrap(), &[])
    } else {
        Ok(None)
    }
}

/// Creates an empty file at the path.
fn create_file(path: &Path) {
    let file = tempfile::NamedTempFile::new_in(path.parent().unwrap()).unwrap();
    file.persist(path).unwrap();
}

/// Removes the file at the path.
fn delete_file(path: &Path) {
    tempfile::TempPath::from_path(path).close().unwrap();
}

/// A folder that holds a file named `Cargo.toml`, which the tests look for.
fn cargo_toml_dir() -> tempfile::TempDir {
    let dir = tempfile::tempdir().unwrap();
    let file = tempfile::NamedTempFile::new_in(dir.path()).unwrap();
    file.persist(dir.path().join("Cargo.toml")).unwrap();
    dir
}

#[test]
fn function_function_file_path_eval_should_return_false_if_the_file_does_not_exist() {
    let function = Function::FilePath(String::from("missing"));
    let mut state = state(".");

    assert!(!eval(&function, &mut state).unwrap());
}

#[test]
fn function_file_path_eval_should_return_true_if_the_file_exists_relative_to_the_data_path() {
        let cargo_dir = cargo_toml_dir();
        let function = Function::FilePath(String::from("Cargo.toml"));
        let mut state = state(cargo_dir.path());

        assert!(eval(&function, &mut state).unwrap());
    }

#[allow(non_snake_case)]
#[test]
fn function_file_path_eval_should_be_true_if_given_LOOT_and_loot_path_exists() {
        let cargo_dir = cargo_toml_dir();
        let function = Function::FilePath(String::from("LOOT"));
        let mut state = state_with_loot_path(".", cargo_dir.path().join("Cargo.toml").to_str().unwrap());

        assert!(eval(&function, &mut state).unwrap());
    }

#[allow(non_snake_case)]
#[test]
fn function_file_path_eval_should_be_false_if_given_LOOT_and_loot_path_does_not_exist() {
        let function = Function::FilePath(String::from("LOOT"));
        let mut state = state_with_loot_path(".", "missing");

        assert!(!eval(&function, &mut state).unwrap());
    }

#[test]
fn function_file_path_eval_should_not_check_for_ghosted_non_plugin_file() {
        let tmp_dir = tempdir().unwrap();
        let data_path = tmp_dir.path().to_path_buf();
        let mut state = state(data_path);

        create_file(&Path::new(state.data_path()).join("Cargo.toml.ghost"));

        let function = Function::FilePath(String::from("Cargo.toml"));

        assert!(!eval(&function, &mut state).unwrap());
    }

#[test]
fn function_file_path_eval_should_return_false_if_the_file_does_not_exist() {
        let function = Function::FilePath(String::from("missing"));
        let mut state = state(".");

        assert!(!eval(&function, &mut state).unwrap());
    }

#[test]
fn function_file_regex_eval_should_be_false_if_no_directory_entries_match() {
        let function = Function::FileRegex(String::from("."), regex("missing"));
        let mut state = state(".");

        assert!(!eval(&function, &mut state).unwrap());
    }

#[test]
fn function_file_regex_eval_should_be_false_if_the_parent_path_part_is_not_a_directory() {
        let function = Function::FileRegex(String::from("missing"), regex("Cargo.*"));
        let mut state = state(".");

        assert!(!eval(&function, &mut state).unwrap());
    }

#[test]
fn function_readable_eval_should_be_true_for_a_file_that_can_be_opened_as_read_only() {
        let cargo_dir = cargo_toml_dir();
        let function = Function::Readable(String::from("Cargo.toml"));
        let mut state = state(cargo_dir.path());

        assert!(eval(&function, &mut state).unwrap());
    }

#[test]
fn function_readable_eval_should_be_true_for_a_folder_that_can_be_read() {
        let function = Function::Readable(String::from("tests"));
        let mut state = state(".");

        assert!(eval(&function, &mut state).unwrap());
    }

#[test]
fn function_readable_eval_should_be_false_for_a_file_that_does_not_exist() {
        let function = Function::Readable(String::from("missing"));
        let mut state = state(".");

        assert!(!eval(&function, &mut state).unwrap());
    }

#[test]
fn function_active_path_eval_should_be_true_if_the_path_is_an_active_plugin() {
        let function = Function::ActivePath(String::from("Blank.esp"));
        let mut state = state_with_active_plugins(".", &["Blank.esp"]);

        assert!(eval(&function, &mut state).unwrap());
    }

#[test]
fn function_active_path_eval_should_be_case_insensitive() {
        let function = Function::ActivePath(String::from("Blank.esp"));
        let mut state = state_with_active_plugins(".", &["blank.esp"]);

        assert!(eval(&function, &mut state).unwrap());
    }

#[test]
fn function_active_path_eval_should_be_false_if_the_path_is_not_an_active_plugin() {
        let function = Function::ActivePath(String::from("inactive.esp"));
        let mut state = state_with_active_plugins(".", &["Blank.esp"]);

        assert!(!eval(&function, &mut state).unwrap());
    }

#[test]
fn function_active_regex_eval_should_be_true_if_the_regex_matches_an_active_plugin() {
        let function = Function::ActiveRegex(regex("Blank\\.esp"));
        let mut state = state_with_active_plugins(".", &["Blank.esp"]);

        assert!(eval(&function, &mut state).unwrap());
    }

#[test]
fn function_active_regex_eval_should_be_false_if_the_regex_does_not_match_an_active_plugin() {
        let function = Function::ActiveRegex(regex("inactive\\.esp"));
        let mut state = state_with_active_plugins(".", &["Blank.esp"]);

        assert!(!eval(&function, &mut state).unwrap());
    }

#[test]
fn function_many_eval_should_be_false_if_no_directory_entries_match() {
        let function = Function::Many(String::from("."), regex("missing"));
        let mut state = state(".");

        assert!(!eval(&function, &mut state).unwrap());
    }

#[test]
fn function_many_eval_should_be_false_if_the_parent_path_part_is_not_a_directory() {
        let function = Function::Many(String::from("missing"), regex("Cargo.*"));
        let mut state = state(".");

        assert!(!eval(&function, &mut state).unwrap());
    }

#[test]
fn function_many_active_eval_should_be_true_if_the_regex_matches_more_than_one_active_plugin() {
        let function = Function::ManyActive(regex("Blank.*"));
        let mut state = state_with_active_plugins(".", &["Blank.esp", "Blank.esm"]);

        assert!(eval(&function, &mut state).unwrap());
    }

#[test]
fn function_many_active_eval_should_be_false_if_one_active_plugin_matches() {
        let function = Function::ManyActive(regex("Blank\\.esp"));
        let mut state = state_with_active_plugins(".", &["Blank.esp", "Blank.esm"]);

        assert!(!eval(&function, &mut state).unwrap());
    }

#[test]
fn function_many_active_eval_should_be_false_if_the_regex_does_not_match_an_active_plugin() {
        let function = Function::ManyActive(regex("inactive\\.esp"));
        let mut state = state_with_active_plugins(".", &["Blank.esp", "Blank.esm"]);

        assert!(!eval(&function, &mut state).unwrap());
    }

#[test]
fn function_checksum_eval_should_be_false_if_the_file_does_not_exist() {
        let function = Function::Checksum(String::from("missing"), 0x374E2A6F);
        let mut state = state(".");

        assert!(!eval(&function, &mut state).unwrap());
    }

#[test]
fn function_checksum_eval_should_be_false_if_given_a_directory_path() {
        // The given CRC is the CRC-32 of the directory as calculated by 7-zip.
        let function = Function::Checksum(String::from("tests/testing-plugins"), 0xC9CD16C3);
        let mut state = state(".");

        assert!(!eval(&function, &mut state).unwrap());
    }

#[test]
fn function_eval_should_cache_results_and_use_cached_results() {
        let tmp_dir = tempdir().unwrap();
        let data_path = tmp_dir.path().to_path_buf();
        let mut state = state(data_path);

        create_file(&Path::new(state.data_path()).join("Cargo.toml"));

        let function = Function::FilePath(String::from("Cargo.toml"));

        assert!(eval(&function, &mut state).unwrap());

        delete_file(&Path::new(state.data_path()).join("Cargo.toml"));

        assert!(eval(&function, &mut state).unwrap());
    }

#[test]
fn function_version_eval_should_be_true_if_the_path_does_not_exist_and_comparator_is_ne() {
        let function =
            Function::Version("missing".into(), "1.0".into(), ComparisonOperator::NotEqual);
        let mut state = state(".");

        assert!(eval(&function, &mut state).unwrap());
    }

#[test]
fn function_version_eval_should_be_true_if_the_path_does_not_exist_and_comparator_is_lt() {
        let function =
            Function::Version("missing".into(), "1.0".into(), ComparisonOperator::LessThan);
        let mut state = state(".");

        assert!(eval(&function, &mut state).unwrap());
    }

#[test]
fn function_version_eval_should_be_true_if_the_path_does_not_exist_and_comparator_is_lteq() {
        let function = Function::Version(
            "missing".into(),
            "1.0".into(),
            ComparisonOperator::LessThanOrEqual,
        );
        let mut state = state(".");

        assert!(eval(&function, &mut state).unwrap());
    }

#[test]
fn function_version_eval_should_be_false_if_the_path_does_not_exist_and_comparator_is_eq() {
        let function = Function::Version("missing".into(), "1.0".into(), ComparisonOperator::Equal);
        let mut state = state(".");

        assert!(!eval(&function, &mut state).unwrap());
    }

#[test]
fn function_version_eval_should_be_false_if_the_path_does_not_exist_and_comparator_is_gt() {
        let function = Function::Version(
            "missing".into(),
            "1.0".into(),
            ComparisonOperator::GreaterThan,
        );
        let mut state = state(".");

        assert!(!eval(&function, &mut state).unwrap());
    }

#[test]
fn function_version_eval_should_be_false_if_the_path_does_not_exist_and_comparator_is_gteq() {
        let function = Function::Version(
            "missing".into(),
            "1.0".into(),
            ComparisonOperator::GreaterThanOrEqual,
        );
        let mut state = state(".");

        assert!(!eval(&function, &mut state).unwrap());
    }

#[test]
fn function_version_eval_should_be_true_if_the_path_is_not_a_file_and_comparator_is_ne() {
        let function =
            Function::Version("tests".into(), "1.0".into(), ComparisonOperator::NotEqual);
        let mut state = state(".");

        assert!(eval(&function, &mut state).unwrap());
    }

#[test]
fn function_version_eval_should_be_true_if_the_path_is_not_a_file_and_comparator_is_lt() {
        let function =
            Function::Version("tests".into(), "1.0".into(), ComparisonOperator::LessThan);
        let mut state = state(".");

        assert!(eval(&function, &mut state).unwrap());
    }

#[test]
fn function_version_eval_should_be_true_if_the_path_is_not_a_file_and_comparator_is_lteq() {
        let function = Function::Version(
            "tests".into(),
            "1.0".into(),
            ComparisonOperator::LessThanOrEqual,
        );
        let mut state = state(".");

        assert!(eval(&function, &mut state).unwrap());
    }

#[test]
fn function_version_eval_should_be_false_if_the_path_is_not_a_file_and_comparator_is_eq() {
        let function = Function::Version("tests".into(), "1.0".into(), ComparisonOperator::Equal);
        let mut state = state(".");

        assert!(!eval(&function, &mut state).unwrap());
    }

#[test]
fn function_version_eval_should_be_false_if_the_path_is_not_a_file_and_comparator_is_gt() {
        let function = Function::Version(
            "tests".into(),
            "1.0".into(),
            ComparisonOperator::GreaterThan,
        );
        let mut state = state(".");

        assert!(!eval(&function, &mut state).unwrap());
    }

#[test]
fn function_version_eval_should_be_false_if_the_path_is_not_a_file_and_comparator_is_gteq() {
        let function = Function::Version(
            "tests".into(),
            "1.0".into(),
            ComparisonOperator::GreaterThanOrEqual,
        );
        let mut state = state(".");

        assert!(!eval(&function, &mut state).unwrap());
    }

#[test]
fn get_product_version_should_return_ok_none_if_the_path_does_not_exist() {
        assert!(get_product_version(Path::new("missing")).unwrap().is_none());
    }

#[test]
fn get_product_version_should_return_ok_none_if_the_path_is_not_a_file() {
        assert!(get_product_version(Path::new("tests")).unwrap().is_none());
    }


/// A folder that holds an empty file named `Blank.esm`.
fn blank_esm_dir() -> tempfile::TempDir {
    let dir = tempfile::tempdir().unwrap();
    create_file(&dir.path().join("Blank.esm"));
    dir
}

#[test]
fn function_version_eval_should_treat_a_plugin_with_no_cached_version_as_if_it_did_not_exist() {
        let data_dir = blank_esm_dir();
        let plugin = String::from("Blank.esm");
        let version = String::from("1.0");
        let mut state = state(data_dir.path());

        let function = Function::Version(plugin.clone(), version.clone(), ComparisonOperator::NotEqual);
        assert!(eval(&function, &mut state).unwrap());
        let function = Function::Version(plugin.clone(), version.clone(), ComparisonOperator::LessThan);
        assert!(eval(&function, &mut state).unwrap());
        let function = Function::Version(plugin.clone(), version.clone(), ComparisonOperator::LessThanOrEqual);
        assert!(eval(&function, &mut state).unwrap());
        let function = Function::Version(plugin.clone(), version.clone(), ComparisonOperator::Equal);
        assert!(!eval(&function, &mut state).unwrap());
        let function = Function::Version(plugin.clone(), version.clone(), ComparisonOperator::GreaterThan);
        assert!(!eval(&function, &mut state).unwrap());
        let function = Function::Version(plugin.clone(), version.clone(), ComparisonOperator::GreaterThanOrEqual);
        assert!(!eval(&function, &mut state).unwrap());
    }

#[test]
fn function_version_eval_should_be_false_if_versions_are_not_equal_and_comparator_is_eq() {
        let data_dir = blank_esm_dir();
        let function = Function::Version("Blank.esm".into(), "5".into(), ComparisonOperator::Equal);
        let mut state = state_with_versions(data_dir.path(), &[("Blank.esm", "1")]);

        assert!(!eval(&function, &mut state).unwrap());
    }

#[test]
fn function_version_eval_should_be_true_if_versions_are_equal_and_comparator_is_eq() {
        let data_dir = blank_esm_dir();
        let function = Function::Version("Blank.esm".into(), "5".into(), ComparisonOperator::Equal);
        let mut state = state_with_versions(data_dir.path(), &[("Blank.esm", "5")]);

        assert!(eval(&function, &mut state).unwrap());
    }

#[test]
fn function_version_eval_should_be_false_if_versions_are_equal_and_comparator_is_ne() {
        let data_dir = blank_esm_dir();
        let function =
            Function::Version("Blank.esm".into(), "5".into(), ComparisonOperator::NotEqual);
        let mut state = state_with_versions(data_dir.path(), &[("Blank.esm", "5")]);

        assert!(!eval(&function, &mut state).unwrap());
    }

#[test]
fn function_version_eval_should_be_true_if_versions_are_not_equal_and_comparator_is_ne() {
        let data_dir = blank_esm_dir();
        let function =
            Function::Version("Blank.esm".into(), "5".into(), ComparisonOperator::NotEqual);
        let mut state = state_with_versions(data_dir.path(), &[("Blank.esm", "1")]);

        assert!(eval(&function, &mut state).unwrap());
    }

#[test]
fn function_version_eval_should_be_false_if_actual_version_is_eq_and_comparator_is_lt() {
        let data_dir = blank_esm_dir();
        let function =
            Function::Version("Blank.esm".into(), "5".into(), ComparisonOperator::LessThan);
        let mut state = state_with_versions(data_dir.path(), &[("Blank.esm", "5")]);

        assert!(!eval(&function, &mut state).unwrap());
    }

#[test]
fn function_version_eval_should_be_false_if_actual_version_is_gt_and_comparator_is_lt() {
        let data_dir = blank_esm_dir();
        let function =
            Function::Version("Blank.esm".into(), "5".into(), ComparisonOperator::LessThan);
        let mut state = state_with_versions(data_dir.path(), &[("Blank.esm", "6")]);

        assert!(!eval(&function, &mut state).unwrap());
    }

#[test]
fn function_version_eval_should_be_true_if_actual_version_is_lt_and_comparator_is_lt() {
        let data_dir = blank_esm_dir();
        let function =
            Function::Version("Blank.esm".into(), "5".into(), ComparisonOperator::NotEqual);
        let mut state = state_with_versions(data_dir.path(), &[("Blank.esm", "1")]);

        assert!(eval(&function, &mut state).unwrap());
    }

#[test]
fn function_version_eval_should_be_false_if_actual_version_is_eq_and_comparator_is_gt() {
        let data_dir = blank_esm_dir();
        let function = Function::Version(
            "Blank.esm".into(),
            "5".into(),
            ComparisonOperator::GreaterThan,
        );
        let mut state = state_with_versions(data_dir.path(), &[("Blank.esm", "5")]);

        assert!(!eval(&function, &mut state).unwrap());
    }

#[test]
fn function_version_eval_should_be_false_if_actual_version_is_lt_and_comparator_is_gt() {
        let data_dir = blank_esm_dir();
        let function = Function::Version(
            "Blank.esm".into(),
            "5".into(),
            ComparisonOperator::GreaterThan,
        );
        let mut state = state_with_versions(data_dir.path(), &[("Blank.esm", "4")]);

        assert!(!eval(&function, &mut state).unwrap());
    }

#[test]
fn function_version_eval_should_be_true_if_actual_version_is_gt_and_comparator_is_gt() {
        let data_dir = blank_esm_dir();
        let function = Function::Version(
            "Blank.esm".into(),
            "5".into(),
            ComparisonOperator::GreaterThan,
        );
        let mut state = state_with_versions(data_dir.path(), &[("Blank.esm", "6")]);

        assert!(eval(&function, &mut state).unwrap());
    }

#[test]
fn function_version_eval_should_be_false_if_actual_version_is_gt_and_comparator_is_lteq() {
        let data_dir = blank_esm_dir();
        let function = Function::Version(
            "Blank.esm".into(),
            "5".into(),
            ComparisonOperator::LessThanOrEqual,
        );
        let mut state = state_with_versions(data_dir.path(), &[("Blank.esm", "6")]);

        assert!(!eval(&function, &mut state).unwrap());
    }

#[test]
fn function_version_eval_should_be_true_if_actual_version_is_eq_and_comparator_is_lteq() {
        let data_dir = blank_esm_dir();
        let function = Function::Version(
            "Blank.esm".into(),
            "5".into(),
            ComparisonOperator::LessThanOrEqual,
        );
        let mut state = state_with_versions(data_dir.path(), &[("Blank.esm", "5")]);

        assert!(eval(&function, &mut state).unwrap());
    }

#[test]
fn function_version_eval_should_be_true_if_actual_version_is_lt_and_comparator_is_lteq() {
        let data_dir = blank_esm_dir();
        let function = Function::Version(
            "Blank.esm".into(),
            "5".into(),
            ComparisonOperator::LessThanOrEqual,
        );
        let mut state = state_with_versions(data_dir.path(), &[("Blank.esm", "4")]);

        assert!(eval(&function, &mut state).unwrap());
    }

#[test]
fn function_version_eval_should_be_false_if_actual_version_is_lt_and_comparator_is_gteq() {
        let data_dir = blank_esm_dir();
        let function = Function::Version(
            "Blank.esm".into(),
            "5".into(),
            ComparisonOperator::GreaterThanOrEqual,
        );
        let mut state = state_with_versions(data_dir.path(), &[("Blank.esm", "4")]);

        assert!(!eval(&function, &mut state).unwrap());
    }

#[test]
fn function_version_eval_should_be_true_if_actual_version_is_eq_and_comparator_is_gteq() {
        let data_dir = blank_esm_dir();
        let function = Function::Version(
            "Blank.esm".into(),
            "5".into(),
            ComparisonOperator::GreaterThanOrEqual,
        );
        let mut state = state_with_versions(data_dir.path(), &[("Blank.esm", "5")]);

        assert!(eval(&function, &mut state).unwrap());
    }

#[test]
fn function_version_eval_should_be_true_if_actual_version_is_gt_and_comparator_is_gteq() {
        let data_dir = blank_esm_dir();
        let function = Function::Version(
            "Blank.esm".into(),
            "5".into(),
            ComparisonOperator::GreaterThanOrEqual,
        );
        let mut state = state_with_versions(data_dir.path(), &[("Blank.esm", "6")]);

        assert!(eval(&function, &mut state).unwrap());
    }

#[test]
fn get_product_version_should_error_if_the_path_is_not_an_executable() {
    let cargo_dir = cargo_toml_dir();

    assert!(get_product_version(&cargo_dir.path().join("Cargo.toml")).is_err());
}

#[test]
fn function_is_master_eval_should_be_false_if_the_path_does_not_exist() {
    let data_dir = tempdir().unwrap();
    let function = Function::IsMaster(String::from("missing.esp"));
    let mut state = state(data_dir.path());

    assert!(!eval(&function, &mut state).unwrap());
}

#[test]
fn function_is_master_eval_should_be_false_if_the_path_is_not_a_plugin() {
    let cargo_dir = cargo_toml_dir();
    let function = Function::IsMaster(String::from("Cargo.toml"));
    let mut state = state(cargo_dir.path());

    assert!(!eval(&function, &mut state).unwrap());
}

#[test]
fn function_file_regex_eval_should_be_true_if_a_directory_entry_matches() {
    let (root, _dirs) = testing_plugins();
    let function = Function::FileRegex(
        String::from("tests/testing-plugins/Oblivion/Data"),
        regex("Blank\\.esp"),
    );
    let mut state = state(root.path());

    assert!(eval(&function, &mut state).unwrap());
}

#[test]
fn function_many_eval_should_be_false_if_one_directory_entry_matches() {
    let (root, _dirs) = testing_plugins();
    let function = Function::Many(
        String::from("tests/testing-plugins/Oblivion/Data"),
        regex("Blank\\.esp"),
    );
    let mut state = state(root.path());

    assert!(!eval(&function, &mut state).unwrap());
}

#[test]
fn function_many_eval_should_be_true_if_more_than_one_directory_entry_matches() {
    let (root, _dirs) = testing_plugins();
    let function = Function::Many(
        String::from("tests/testing-plugins/Oblivion/Data"),
        regex("Blank.*"),
    );
    let mut state = state(root.path());

    assert!(eval(&function, &mut state).unwrap());
}

#[test]
fn function_is_master_eval_should_be_true_if_the_path_is_a_master_plugin() {
    let (root, _dirs) = testing_plugins();
    let function = Function::IsMaster(String::from("Blank.esm"));
    let mut state = state(root.path().join("tests/testing-plugins/Oblivion/Data"));
    let contents = [("Blank.esm", plugin_header(1))];

    assert!(eval_with_contents(&function, &mut state, &contents).unwrap());
}

#[test]
fn function_is_master_eval_should_be_false_if_the_path_is_a_non_master_plugin() {
    let (root, _dirs) = testing_plugins();
    let function = Function::IsMaster(String::from("Blank.esp"));
    let mut state = state(root.path().join("tests/testing-plugins/Oblivion/Data"));
    let contents = [("Blank.esp", plugin_header(0))];

    assert!(!eval_with_contents(&function, &mut state, &contents).unwrap());
}
