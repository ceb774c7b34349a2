use std::path::Path;
use std::str::FromStr;

use loot_condition_interpreter::condition::{CompoundCondition, Condition, Evaluation, Expression};
use loot_condition_interpreter::error::Error;
use loot_condition_interpreter::function::eval::{Answer, Listing, Query, Step};
use loot_condition_interpreter::function::{ComparisonOperator, Function};
use loot_condition_interpreter::{GameType, State};

fn list(path: &str) -> Listing {
    match Path::new(path).read_dir() {
        Err(_) => Listing::Unreadable,
        Ok(entries) => {
            let mut names = Vec::new();
            for entry in entries {
                match entry {
                    Ok(e) => names.push(e.file_name().to_str().map(String::from)),
                    Err(e) => return Listing::Entries(names, Some(e.to_string())),
                }
            }
            Listing::Entries(names, None)
        }
    }
}

fn answer(query: &Query) -> Answer {
    match query {
        Query::Exist(paths) => Answer::Flags(paths.iter().map(|p| Path::new(p).exists()).collect()),
        Query::IsDir(p) => Answer::Flag(Path::new(p).is_dir()),
        Query::IsFile(p) => Answer::Flag(Path::new(p).is_file()),
        Query::CanReadDir(p) => Answer::Flag(Path::new(p).read_dir().is_ok()),
        Query::CanOpen(p) => Answer::Flag(Path::new(p).metadata().is_ok()),
        Query::Size(p) => Answer::Size(Path::new(p).metadata().ok().map(|m| m.len())),
        Query::Read(_) => Answer::Contents(Err("file contents are not read by these tests".to_string())),
        Query::List(paths) => Answer::Listings(paths.iter().map(|p| list(p)).collect()),
    }
}

fn eval_function(function: &Function, state: &mut State) -> Result<bool, Error> {
    let mut answers = Vec::new();
    loop {
        match function.eval(state, &answers) {
            Step::Ask(query) => answers.push(answer(&query)),
            Step::Done(result) => return result,
        }
    }
}

fn drive(
    state: &mut State,
    evaluate: impl Fn(&[(Function, Result<bool, Error>)]) -> Evaluation,
) -> Result<bool, Error> {
    let mut known: Vec<(Function, Result<bool, Error>)> = Vec::new();
    loop {
        match evaluate(&known) {
            Evaluation::Value(b) => return Ok(b),
            Evaluation::Failed(e) => return Err(e),
            Evaluation::Needs(function) => {
                let result = eval_function(&function, state);
                known.push((function, result));
            }
        }
    }
}

fn state<T: AsRef<Path>>(data_path: T) -> State {
    State::new(GameType::Oblivion, data_path.as_ref().to_str().unwrap().to_string())
}

/// A folder that holds a file named `Cargo.toml`, which the tests look for.
fn cargo_toml_dir() -> tempfile::TempDir {
    let dir = tempfile::tempdir().unwrap();
    let file = tempfile::NamedTempFile::new_in(dir.path()).unwrap();
    file.persist(dir.path().join("Cargo.toml")).unwrap();
    dir
}

#[test]
fn game_type_supports_light_plugins_should_be_true_for_tes5se_tes5vr_fo4_fo4vr_and_starfield() {
        assert!(GameType::SkyrimSE.supports_light_plugins());
        assert!(GameType::SkyrimVR.supports_light_plugins());
        assert!(GameType::Fallout4.supports_light_plugins());
        assert!(GameType::Fallout4VR.supports_light_plugins());
        assert!(GameType::Starfield.supports_light_plugins());
    }

#[test]
fn game_type_supports_light_master_should_be_false_for_tes3_to_5_fo3_and_fonv() {
        assert!(!GameType::Morrowind.supports_light_plugins());
        assert!(!GameType::Oblivion.supports_light_plugins());
        assert!(!GameType::Skyrim.supports_light_plugins());
        assert!(!GameType::Fallout3.supports_light_plugins());
        assert!(!GameType::FalloutNV.supports_light_plugins());
    }

#[test]
fn expression_from_str_should_error_with_input_on_incomplete_input() {
        let error = Expression::from_str("file(\"Carg").unwrap_err();

        assert_eq!(
            "The parser did not consume the following input: \"file(\"Carg\"",
            error.to_string()
        );
    }

#[test]
fn expression_from_str_should_error_with_input_on_invalid_regex() {
        let error = Expression::from_str("file(\"Carg\\.*(\")").unwrap_err();

        assert_eq!(
            "An error was encountered while parsing the expression \"Carg\\.*(\": regex parse error:\n    ^Carg\\.*($\n            ^\nerror: unclosed group",
            error.to_string()
        );
    }

#[test]
fn expression_from_str_should_error_with_input_on_invalid_crc() {
        let error = Expression::from_str("checksum(\"Cargo.toml\", DEADBEEFDEAD)").unwrap_err();

        assert_eq!(
            "An error was encountered while parsing the expression \"DEADBEEFDEAD\": number too large to fit in target type",
            error.to_string()
        );
    }

#[test]
fn expression_from_str_should_error_with_input_on_directory_regex() {
        let error = Expression::from_str("file(\"targ.*et/\")").unwrap_err();

        assert_eq!(
            "An error was encountered while parsing the expression \"targ.*et/\\\")\": \"targ.*et/\" ends in a directory separator",
            error.to_string()
        );
    }

#[test]
fn expression_from_str_should_error_with_input_on_path_outside_game_directory() {
        let error = Expression::from_str("file(\"../../Cargo.toml\")").unwrap_err();

        assert_eq!(
            "An error was encountered while parsing the expression \"../../Cargo.toml\\\")\": \"../../Cargo.toml\" is not in the game directory",
            error.to_string()
        );
    }

#[test]
fn expression_parse_should_handle_a_single_compound_condition() {
        let result = Expression::from_str("file(\"Cargo.toml\")").unwrap();

        match result.0.as_slice() {
            [CompoundCondition(_)] => {}
            _ => panic!("Expected an expression with one compound condition"),
        }
    }

#[test]
fn expression_parse_should_handle_multiple_compound_conditions() {
        let result = Expression::from_str("file(\"Cargo.toml\") or file(\"Cargo.toml\")").unwrap();

        match result.0.as_slice() {
            [CompoundCondition(_), CompoundCondition(_)] => {}
            v => panic!(
                "Expected an expression with two compound conditions, got {:?}",
                v
            ),
        }
    }

#[test]
fn expression_parse_should_error_if_it_does_not_consume_the_whole_input() {
        let error = Expression::from_str("file(\"Cargo.toml\") foobar").unwrap_err();

        assert_eq!(
            "The parser did not consume the following input: \" foobar\"",
            error.to_string()
        );
    }

#[test]
fn expression_parsing_should_ignore_whitespace_between_function_arguments() {
        let is_ok = |s: &str| Expression::from_str(s).is_ok();

        assert!(is_ok("version(\"Cargo.toml\", \"1.2\", ==)"));
        assert!(is_ok(
            "version(\"Unofficial Oblivion Patch.esp\",\"3.4.0\",>=)"
        ));
        assert!(is_ok(
            "version(\"Unofficial Skyrim Patch.esp\", \"2.0\", >=)"
        ));
        assert!(is_ok("version(\"..\\TESV.exe\", \"1.8\", >) and not checksum(\"EternalShineArmorAndWeapons.esp\",3E85A943)"));
        assert!(is_ok("version(\"..\\TESV.exe\",\"1.8\",>) and not checksum(\"EternalShineArmorAndWeapons.esp\",3E85A943)"));
        assert!(is_ok("checksum(\"HM_HotkeyMod.esp\",374C564C)"));
        assert!(is_ok("checksum(\"HM_HotkeyMod.esp\",CF00AFFD)"));
        assert!(is_ok(
            "checksum(\"HM_HotkeyMod.esp\",374C564C) or checksum(\"HM_HotkeyMod.esp\",CF00AFFD)"
        ));
        assert!(is_ok("( checksum(\"HM_HotkeyMod.esp\",374C564C) or checksum(\"HM_HotkeyMod.esp\",CF00AFFD) )"));
        assert!(is_ok("file(\"UFO - Ultimate Follower Overhaul.esp\")"));
        assert!(is_ok("( checksum(\"HM_HotkeyMod.esp\",374C564C) or checksum(\"HM_HotkeyMod.esp\",CF00AFFD) ) and file(\"UFO - Ultimate Follower Overhaul.esp\")"));
        assert!(is_ok(
            "many(\"Deeper Thoughts (\\(Curie\\)|- (Expressive )?Curie)\\.esp\")"
        ));
    }

#[test]
fn condition_eval_should_return_function_eval_for_a_function_condition() {
        let cargo_dir = cargo_toml_dir();
        let mut state = state(cargo_dir.path());

        let condition = Condition::Function(Function::FilePath(String::from("Cargo.toml")));

        assert!(drive(&mut state, |k| condition.eval(k)).unwrap());

        let condition = Condition::Function(Function::FilePath(String::from("missing")));

        assert!(!drive(&mut state, |k| condition.eval(k)).unwrap());
    }

#[test]
fn condition_eval_should_return_expression_eval_for_an_expression_condition() {
        let cargo_dir = cargo_toml_dir();
        let mut state = state(cargo_dir.path());

        let condition = Condition::Expression(Expression(vec![CompoundCondition(vec![
            Condition::Function(Function::FilePath(String::from("Cargo.toml"))),
        ])]));

        assert!(drive(&mut state, |k| condition.eval(k)).unwrap());
    }

#[test]
fn condition_eval_should_return_inverse_of_function_eval_for_a_not_function_condition() {
        let cargo_dir = cargo_toml_dir();
        let mut state = state(cargo_dir.path());

        let condition =
            Condition::InvertedFunction(Function::FilePath(String::from("Cargo.toml")));

        assert!(!drive(&mut state, |k| condition.eval(k)).unwrap());

        let condition = Condition::InvertedFunction(Function::FilePath(String::from("missing")));

        assert!(drive(&mut state, |k| condition.eval(k)).unwrap());
    }

#[test]
fn condition_eval_should_return_inverse_of_expression_eval_for_a_not_expression_condition() {
        let cargo_dir = cargo_toml_dir();
        let mut state = state(cargo_dir.path());

        let condition = Condition::InvertedExpression(Expression(vec![CompoundCondition(vec![
            Condition::Function(Function::FilePath(String::from("Cargo.toml"))),
        ])]));

        assert!(!drive(&mut state, |k| condition.eval(k)).unwrap());
    }

#[test]
fn condition_fmt_should_format_function_correctly() {
        let condition = Condition::Function(Function::FilePath(String::from("Cargo.toml")));

        assert_eq!("file(\"Cargo.toml\")", &condition.to_string());
    }

#[test]
fn condition_fmt_should_format_inverted_function_correctly() {
        let condition =
            Condition::InvertedFunction(Function::FilePath(String::from("Cargo.toml")));

        assert_eq!("not file(\"Cargo.toml\")", &condition.to_string());
    }

#[test]
fn condition_fmt_should_format_expression_correctly() {
        let condition = Condition::Expression(Expression(vec![CompoundCondition(vec![
            Condition::Function(Function::FilePath(String::from("Cargo.toml"))),
        ])]));

        assert_eq!("(file(\"Cargo.toml\"))", &condition.to_string());
    }

#[test]
fn condition_fmt_should_format_inverted_expression_correctly() {
        let condition = Condition::InvertedExpression(Expression(vec![CompoundCondition(vec![
            Condition::Function(Function::FilePath(String::from("Cargo.toml"))),
        ])]));

        assert_eq!("not (file(\"Cargo.toml\"))", &condition.to_string());
    }

#[test]
fn compound_condition_eval_should_be_true_if_all_conditions_are_true() {
        let cargo_dir = cargo_toml_dir();
        let mut state = state(cargo_dir.path());

        let compound_condition = CompoundCondition(vec![
            Condition::Function(Function::FilePath(String::from("Cargo.toml"))),
            Condition::Function(Function::FilePath(String::from("Cargo.toml"))),
        ]);

        assert!(drive(&mut state, |k| compound_condition.eval(k)).unwrap());
    }

#[test]
fn compound_condition_eval_should_be_false_if_any_condition_is_false() {
        let cargo_dir = cargo_toml_dir();
        let mut state = state(cargo_dir.path());

        let compound_condition = CompoundCondition(vec![
            Condition::Function(Function::FilePath(String::from("Cargo.toml"))),
            Condition::Function(Function::FilePath(String::from("missing"))),
        ]);

        assert!(!drive(&mut state, |k| compound_condition.eval(k)).unwrap());
    }

#[test]
fn compound_condition_eval_should_return_false_on_first_false_condition() {
        let cargo_dir = cargo_toml_dir();
        let mut state = state(cargo_dir.path());
        let path = "Cargo.toml";

        // If the second function is evaluated, it will result in an error.
        let compound_condition = CompoundCondition(vec![
            Condition::InvertedFunction(Function::Readable(String::from(path))),
            Condition::Function(Function::ProductVersion(
                String::from(path),
                "1.0.0".into(),
                ComparisonOperator::Equal,
            )),
        ]);

        assert!(!drive(&mut state, |k| compound_condition.eval(k)).unwrap());
    }

#[test]
fn compound_condition_fmt_should_format_correctly() {
        let compound_condition = CompoundCondition(vec![
            Condition::Function(Function::FilePath(String::from("Cargo.toml"))),
            Condition::Function(Function::FilePath(String::from("missing"))),
        ]);

        assert_eq!(
            "file(\"Cargo.toml\") and file(\"missing\")",
            &compound_condition.to_string()
        );

        let compound_condition = CompoundCondition(vec![Condition::Function(Function::FilePath(
            String::from("Cargo.toml"),
        ))]);

        assert_eq!("file(\"Cargo.toml\")", &compound_condition.to_string());
    }

#[test]
fn expression_eval_should_be_true_if_any_compound_condition_is_true() {
        let cargo_dir = cargo_toml_dir();
        let mut state = state(cargo_dir.path());

        let expression = Expression(vec![
            CompoundCondition(vec![Condition::Function(Function::FilePath(
                String::from("Cargo.toml"),
            ))]),
            CompoundCondition(vec![Condition::Function(Function::FilePath(
                String::from("missing"),
            ))]),
        ]);
        assert!(drive(&mut state, |k| expression.eval(k)).unwrap());
    }

#[test]
fn expression_eval_should_be_false_if_all_compound_conditions_are_false() {
        let mut state = state(".");

        let expression = Expression(vec![
            CompoundCondition(vec![Condition::Function(Function::FilePath(
                String::from("missing"),
            ))]),
            CompoundCondition(vec![Condition::Function(Function::FilePath(
                String::from("missing"),
            ))]),
        ]);
        assert!(!drive(&mut state, |k| expression.eval(k)).unwrap());
    }

#[test]
fn expression_fmt_should_format_correctly() {
        let expression = Expression(vec![
            CompoundCondition(vec![Condition::Function(Function::FilePath(
                String::from("Cargo.toml"),
            ))]),
            CompoundCondition(vec![Condition::Function(Function::FilePath(
                String::from("missing"),
            ))]),
        ]);

        assert_eq!(
            "file(\"Cargo.toml\") or file(\"missing\")",
            &expression.to_string()
        );

        let expression = Expression(vec![CompoundCondition(vec![Condition::Function(
            Function::FilePath(String::from("Cargo.toml")),
        )])]);

        assert_eq!("file(\"Cargo.toml\")", &expression.to_string());
    }
