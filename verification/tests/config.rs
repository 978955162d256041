use minecraft_block_finder::{resolve_request, CliArgs, FileConfig, Parameter, SearchError};
use std::path::PathBuf;

fn args(block: Option<&str>, path: Option<&str>, show_all: bool, max_distance: Option<i32>) -> CliArgs {
    CliArgs { block: block.map(String::from), path: path.map(PathBuf::from), show_all, max_distance }
}

fn file(block: Option<&str>, path: Option<&str>, home: Option<(i32, i32)>, max_distance: Option<i32>) -> FileConfig {
    FileConfig {
        block: block.map(String::from),
        path: path.map(PathBuf::from),
        home,
        show_all: None,
        max_distance,
    }
}

#[test]
fn default_configuration_sets_nothing() {
    let config = FileConfig::default();
    assert_eq!(config.block, None);
    assert_eq!(config.path, None);
    assert_eq!(config.home, None);
    assert_eq!(config.show_all, None);
    assert_eq!(config.max_distance, None);
}

#[test]
fn command_line_goes_before_the_file() {
    let request = resolve_request(
        args(Some("diamond_ore"), Some("cli/region"), true, Some(100)),
        file(Some("gold_ore"), Some("file/region"), Some((5, 6)), Some(900)),
    )
    .unwrap();
    assert_eq!(request.block, "diamond_ore");
    assert_eq!(request.directory, PathBuf::from("cli/region"));
    assert_eq!(request.origin, Some((5, 6)));
    assert_eq!(request.max_distance, Some(100));
    assert!(request.show_all);
}

#[test]
fn file_fills_what_the_command_line_leaves_open() {
    let request = resolve_request(
        args(None, None, false, None),
        file(Some("gold_ore"), Some("file/region"), None, Some(900)),
    )
    .unwrap();
    assert_eq!(request.block, "gold_ore");
    assert_eq!(request.directory, PathBuf::from("file/region"));
    assert_eq!(request.origin, None);
    assert_eq!(request.max_distance, Some(900));
    assert!(!request.show_all);
}

#[test]
fn show_all_comes_from_the_command_line_alone() {
    let mut config = file(Some("a"), Some("b"), None, None);
    config.show_all = Some(true);
    let request = resolve_request(args(None, None, false, None), config).unwrap();
    assert!(!request.show_all);
}

#[test]
fn missing_block_is_reported() {
    let failed = resolve_request(args(None, Some("dir"), false, None), FileConfig::default());
    assert!(matches!(failed, Err(SearchError::MissingParameter(Parameter::Block))));
}

#[test]
fn missing_directory_is_reported() {
    let failed = resolve_request(args(Some("ore"), None, false, None), FileConfig::default());
    assert!(matches!(failed, Err(SearchError::MissingParameter(Parameter::Directory))));
}

#[test]
fn missing_block_is_reported_first() {
    let failed = resolve_request(args(None, None, true, Some(3)), FileConfig::default());
    assert!(matches!(failed, Err(SearchError::MissingParameter(Parameter::Block))));
}

#[test]
fn filter_needs_a_greatest_distance() {
    let request = resolve_request(
        args(Some("ore"), Some("dir"), false, None),
        file(None, None, Some((7, 8)), None),
    )
    .unwrap();
    assert_eq!(request.distance_filter(), None);
}

#[test]
fn filter_is_centred_on_the_origin() {
    let request = resolve_request(
        args(Some("ore"), Some("dir"), false, Some(250)),
        file(None, None, Some((7, 8)), None),
    )
    .unwrap();
    assert_eq!(request.distance_filter(), Some(((7, 8), 250)));
}

#[test]
fn filter_without_origin_is_centred_on_zero() {
    let request =
        resolve_request(args(Some("ore"), Some("dir"), false, Some(250)), FileConfig::default())
            .unwrap();
    assert_eq!(request.origin, None);
    assert_eq!(request.distance_filter(), Some(((0, 0), 250)));
}
