use mod_manager::config::game::{GameConfig, ModProfile};
use mod_manager::config::known_games::KnownGamesData;
use mod_manager::config::settings::MythicalSettingsData;
use mod_manager::dirs::{get_binary_dir, get_cache_dir, get_config_dir};
use mod_manager::samples::{get_it_takes_two_metadata, get_pavlov_metadata};
use mod_manager::game_discovery::{FolderSnapshot, GameDiscoveryRequirement};
use std::collections::HashMap;

#[test]
fn known_games_default_is_empty() {
    let data = KnownGamesData::default();
    assert!(data.games.is_empty());
}

#[test]
fn settings_default_discovers_on_launch() {
    let settings = MythicalSettingsData::default();
    assert!(settings.discover_on_launch);
}

#[test]
fn game_config_holds_profiles() {
    let mut mods = HashMap::new();
    mods.insert("test".to_string(), "1.0.0".to_string());
    let profile = ModProfile { name: "test".to_string(), mods };
    let config = GameConfig {
        patch_ver: "1.0.0".to_string(),
        selected_profile: Some(0),
        profiles: vec![profile],
    };
    assert_eq!(config.profiles.len(), 1);
    assert_eq!(config.profiles[0].mods.get("test"), Some(&"1.0.0".to_string()));
}

#[test]
fn config_dir_sits_under_the_platform_directory() {
    if let Some(dir) = get_config_dir() {
        assert!(dir.ends_with("/config"));
    }
    if let Some(dir) = get_cache_dir() {
        assert!(dir.ends_with("/cache"));
    }
    assert_eq!(get_binary_dir(), get_cache_dir());
}

#[test]
fn sample_catalog_signatures_read_as_shipped() {
    let pavlov = get_pavlov_metadata();
    assert_eq!(pavlov.name, "Pavlov");
    assert_eq!(pavlov.internal_name, "pavlov");
    match &pavlov.discovery {
        GameDiscoveryRequirement::And(reqs) => assert_eq!(reqs.len(), 2),
        _ => panic!("pavlov discovery must be a conjunction"),
    }
    let snapshot = FolderSnapshot {
        present: vec![
            "Pavlov\\Binaries\\Win64\\Pavlov-Win64-Shipping.exe".to_string(),
            "Pavlov.exe".to_string(),
        ],
    };
    assert!(pavlov.discovery.eval_in(&snapshot));
    let partial = FolderSnapshot { present: vec!["Pavlov.exe".to_string()] };
    assert!(!pavlov.discovery.eval_in(&partial));

    let it2 = get_it_takes_two_metadata();
    assert_eq!(it2.name, "It Takes Two");
    assert_eq!(it2.internal_name, "it_takes_two");
    let it2_snapshot = FolderSnapshot {
        present: vec!["Nuts\\Binaries\\Win64\\ItTakesTwo.exe".to_string()],
    };
    assert!(it2.discovery.eval_in(&it2_snapshot));
}
