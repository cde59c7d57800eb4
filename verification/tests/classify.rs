use mod_manager::config::game::GameConfig;
use mod_manager::config::ConfigParseError;
use mod_manager::game::{GameMetadata, GameState, SupportedGames};
use mod_manager::game_discovery::{
    FolderSnapshot, GameDiscoveryError, GameDiscoveryRequirement,
};

fn signature(name: &str, slug: &str, needs: &[&str]) -> GameMetadata {
    GameMetadata {
        contentpath_relative: name.to_string(),
        name: name.to_string(),
        internal_name: slug.to_string(),
        modloader_manifest: "todo".to_string(),
        discovery: GameDiscoveryRequirement::And(
            needs
                .iter()
                .map(|p| GameDiscoveryRequirement::FileExists(p.to_string()))
                .collect(),
        ),
        icon: (),
    }
}

fn snap(paths: &[&str]) -> FolderSnapshot {
    FolderSnapshot { present: paths.iter().map(|p| p.to_string()).collect() }
}

fn sample_config() -> GameConfig {
    GameConfig { patch_ver: "1.0.0".to_string(), selected_profile: None, profiles: Vec::new() }
}

#[test]
fn pavlov_folder_classifies_unpatched() {
    let catalog = SupportedGames::new(vec![signature("Pavlov", "pavlov", &["Pavlov.exe"])]);
    let path = "Games/Pavlov".to_string();
    let result = catalog.classify_in(&path, &snap(&["Pavlov.exe"]), Ok(None));
    let game = result.expect("classification must not fail").expect("must match");
    assert_eq!(game.path, "Games/Pavlov");
    assert_eq!(game.metadata.name, "Pavlov");
    assert!(matches!(game.state, GameState::Unpatched));
}

#[test]
fn first_matching_signature_wins() {
    let catalog = SupportedGames::new(vec![
        signature("Alpha", "alpha", &["shared.exe"]),
        signature("Beta", "beta", &["shared.exe"]),
    ]);
    let path = "Games/Shared".to_string();
    let result = catalog.classify_in(&path, &snap(&["shared.exe"]), Ok(None));
    let game = result.unwrap().unwrap();
    assert_eq!(game.metadata.name, "Alpha");
}

#[test]
fn unmatched_folder_is_no_error() {
    let catalog = SupportedGames::new(vec![signature("Pavlov", "pavlov", &["Pavlov.exe"])]);
    let path = "Games/Other".to_string();
    let result = catalog.classify_in(&path, &snap(&["other.exe"]), Ok(None));
    assert!(matches!(result, Ok(None)));
}

#[test]
fn probe_value_becomes_patched_state() {
    let catalog = SupportedGames::new(vec![signature("Pavlov", "pavlov", &["Pavlov.exe"])]);
    let path = "Games/Pavlov".to_string();
    let result = catalog.classify_in(&path, &snap(&["Pavlov.exe"]), Ok(Some(sample_config())));
    let game = result.unwrap().unwrap();
    match game.state {
        GameState::Patched(config) => assert_eq!(config, sample_config()),
        GameState::Unpatched => panic!("expected a patched state"),
    }
}

#[test]
fn probe_error_surfaces_only_on_a_match() {
    let catalog = SupportedGames::new(vec![signature("Pavlov", "pavlov", &["Pavlov.exe"])]);
    let path = "Games/Pavlov".to_string();
    let matched = catalog.classify_in(&path, &snap(&["Pavlov.exe"]), Err(ConfigParseError::IOError));
    assert!(matches!(
        matched,
        Err(GameDiscoveryError::GameConfigParseError(ConfigParseError::IOError))
    ));
    let unmatched = catalog.classify_in(&path, &snap(&[]), Err(ConfigParseError::IOError));
    assert!(matches!(unmatched, Ok(None)));
}

#[test]
fn parse_in_path_folds_the_probe() {
    assert!(matches!(GameState::parse_in_path(Ok(None)), Ok(GameState::Unpatched)));
    match GameState::parse_in_path(Ok(Some(sample_config()))) {
        Ok(GameState::Patched(config)) => assert_eq!(config, sample_config()),
        _ => panic!("expected a patched state"),
    }
    assert!(matches!(
        GameState::parse_in_path(Err(ConfigParseError::DeserializeError)),
        Err(ConfigParseError::DeserializeError)
    ));
}

#[test]
fn discover_folder_on_missing_folder_finds_nothing() {
    let catalog = SupportedGames::new(vec![signature("Pavlov", "pavlov", &["Pavlov.exe"])]);
    let path = "/this/folder/does/not/exist/anywhere".to_string();
    let result = catalog.discover_folder(&path, Ok(None));
    assert!(matches!(result, Ok(None)));
}
