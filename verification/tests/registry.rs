use mod_manager::config::known_games::KnownGamesData;
use mod_manager::game::{
    game_sorting_fn, Game, GameLibrary, GameMetadata, GameState, SupportedGames,
};
use mod_manager::game_discovery::{FolderSnapshot, GameDiscoveryRequirement};

fn signature(name: &str, slug: &str, needs: &[&str]) -> GameMetadata {
    GameMetadata {
        contentpath_relative: name.to_string(),
        name: name.to_string(),
        internal_name: slug.to_string(),
        modloader_manifest: "todo".to_string(),
        discovery: GameDiscoveryRequirement::And(
            needs
                .iter()
                .map(|p| GameDiscoveryRequirement::FileExists(p.to_string()))
                .collect(),
        ),
        icon: (),
    }
}

fn game_at(name: &str, path: &str) -> Game {
    Game {
        path: path.to_string(),
        metadata: signature(name, name, &["x.exe"]),
        state: GameState::Unpatched,
    }
}

fn empty_library() -> GameLibrary {
    GameLibrary { games: Vec::new(), known_games: KnownGamesData { games: Vec::new() } }
}

fn snap(paths: &[&str]) -> FolderSnapshot {
    FolderSnapshot { present: paths.iter().map(|p| p.to_string()).collect() }
}

fn paths_of(lib: &GameLibrary) -> Vec<String> {
    lib.games().iter().map(|g| g.path.clone()).collect()
}

#[test]
fn add_game_appends_and_persists() {
    let mut lib = empty_library();
    lib.add_game(game_at("Pavlov", "/games/pavlov"));
    assert_eq!(lib.games().len(), 1);
    assert_eq!(lib.known_games.games, vec!["/games/pavlov".to_string()]);
}

#[test]
fn add_game_twice_replaces_instead_of_appending() {
    let mut lib = empty_library();
    lib.add_game(game_at("Pavlov", "/games/pavlov"));
    let after_one = lib.games().len();
    lib.add_game(game_at("Pavlov", "/games/pavlov"));
    assert_eq!(lib.games().len(), after_one);
    assert_eq!(lib.known_games.games, paths_of(&lib));
}

#[test]
fn add_game_replacement_keeps_latest_state() {
    let mut lib = empty_library();
    lib.add_game(game_at("Pavlov", "/games/pavlov"));
    let mut renamed = game_at("Pavlov Reinstalled", "/games/pavlov");
    renamed.metadata.internal_name = "pavlov2".to_string();
    lib.add_game(renamed);
    assert_eq!(lib.games().len(), 1);
    assert_eq!(lib.games()[0].metadata.internal_name, "pavlov2");
}

#[test]
fn registry_is_sorted_by_name_then_path() {
    let mut lib = empty_library();
    lib.add_game(game_at("Zulu", "/games/z"));
    lib.add_game(game_at("Alpha", "/games/b"));
    lib.add_game(game_at("Alpha", "/games/a"));
    lib.add_game(game_at("Mike", "/games/m"));
    let names: Vec<&str> = lib.games().iter().map(|g| g.metadata.name.as_str()).collect();
    assert_eq!(names, vec!["Alpha", "Alpha", "Mike", "Zulu"]);
    assert_eq!(
        paths_of(&lib),
        vec!["/games/a".to_string(), "/games/b".to_string(), "/games/m".to_string(), "/games/z".to_string()]
    );
    assert_eq!(lib.known_games.games, paths_of(&lib));
}

#[test]
fn comparator_orders_by_name_then_path() {
    let a = game_at("Alpha", "/games/a");
    let b = game_at("Alpha", "/games/b");
    let z = game_at("Zulu", "/games/a");
    assert_eq!(game_sorting_fn(&a, &b), std::cmp::Ordering::Less);
    assert_eq!(game_sorting_fn(&b, &a), std::cmp::Ordering::Greater);
    assert_eq!(game_sorting_fn(&a, &z), std::cmp::Ordering::Less);
    assert_eq!(game_sorting_fn(&z, &a), std::cmp::Ordering::Greater);
    assert_eq!(game_sorting_fn(&a, &game_at("Alpha", "/games/a")), std::cmp::Ordering::Equal);
}

#[test]
fn init_prunes_paths_that_no_longer_discover() {
    let supported = SupportedGames::new(vec![signature("Pavlov", "pavlov", &["Pavlov.exe"])]);
    let known = KnownGamesData {
        games: vec!["/nowhere/one".to_string(), "/nowhere/two".to_string()],
    };
    let lib = GameLibrary::init(&supported, &known, vec![Ok(None), Ok(None)]);
    assert!(lib.games().is_empty());
    assert!(lib.known_games.games.is_empty());
}

#[test]
fn reload_keeps_matching_folders_and_drops_the_rest() {
    let supported = SupportedGames::new(vec![signature("Pavlov", "pavlov", &["Pavlov.exe"])]);
    let entries = vec![
        ("/games/pavlov".to_string(), snap(&["Pavlov.exe"]), Ok(None)),
        ("/games/stale".to_string(), snap(&[]), Ok(None)),
    ];
    let lib = GameLibrary::init_in(&supported, entries);
    assert_eq!(paths_of(&lib), vec!["/games/pavlov".to_string()]);
    assert_eq!(lib.known_games.games, vec!["/games/pavlov".to_string()]);
    assert!(matches!(lib.games()[0].state, GameState::Unpatched));
}

#[test]
fn round_trip_reproduces_the_same_paths() {
    let supported = SupportedGames::new(vec![signature("Pavlov", "pavlov", &["Pavlov.exe"])]);
    let mut lib = empty_library();
    lib.add_game(game_at("Pavlov", "/games/pavlov"));
    let persisted = lib.known_games.games.clone();
    let entries: Vec<_> = persisted
        .iter()
        .map(|p| (p.clone(), snap(&["Pavlov.exe"]), Ok(None)))
        .collect();
    let reloaded = GameLibrary::init_in(&supported, entries);
    assert_eq!(paths_of(&reloaded), persisted);
    assert_eq!(reloaded.known_games.games, persisted);
}
