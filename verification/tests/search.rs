use mod_manager::config::ConfigParseError;
use mod_manager::game::{GameMetadata, GameState, SupportedGames};
use mod_manager::game_discovery::{FolderSnapshot, GameDiscoveryRequirement};
use mod_manager::game_search::{search_folder, CandidateFolder, ScanRoot, SearchFolderError};

fn signature(name: &str, slug: &str, needs: &[&str]) -> GameMetadata {
    GameMetadata {
        contentpath_relative: name.to_string(),
        name: name.to_string(),
        internal_name: slug.to_string(),
        modloader_manifest: "todo".to_string(),
        discovery: GameDiscoveryRequirement::And(
            needs
                .iter()
                .map(|p| GameDiscoveryRequirement::FileExists(p.to_string()))
                .collect(),
        ),
        icon: (),
    }
}

fn snap(paths: &[&str]) -> FolderSnapshot {
    FolderSnapshot { present: paths.iter().map(|p| p.to_string()).collect() }
}

fn catalog() -> SupportedGames {
    SupportedGames::new(vec![signature("Pavlov", "pavlov", &["Pavlov.exe"])])
}

fn dir_child(path: &str, present: &[&str]) -> CandidateFolder {
    CandidateFolder { path: path.to_string(), is_dir: true, snapshot: snap(present), probe: Ok(None) }
}

#[test]
fn scan_of_missing_root_fails_fast() {
    let root = ScanRoot { exists: false, is_dir: false, children: Vec::new() };
    let result = search_folder(root, &catalog());
    assert!(matches!(result, Err(SearchFolderError::FolderDoesNotExist)));
}

#[test]
fn scan_of_a_file_fails_fast() {
    let root = ScanRoot { exists: true, is_dir: false, children: Vec::new() };
    let result = search_folder(root, &catalog());
    assert!(matches!(result, Err(SearchFolderError::NotAFolder)));
}

#[test]
fn scan_of_empty_folder_yields_nothing() {
    let root = ScanRoot { exists: true, is_dir: true, children: Vec::new() };
    let games = search_folder(root, &catalog()).unwrap();
    assert!(games.is_empty());
}

#[test]
fn scan_keeps_matching_directories_only() {
    let root = ScanRoot {
        exists: true,
        is_dir: true,
        children: vec![
            dir_child("/steam/pavlov", &["Pavlov.exe"]),
            dir_child("/steam/other", &["other.exe"]),
            CandidateFolder {
                path: "/steam/loose-file".to_string(),
                is_dir: false,
                snapshot: snap(&["Pavlov.exe"]),
                probe: Ok(None),
            },
        ],
    };
    let games = search_folder(root, &catalog()).unwrap();
    assert_eq!(games.len(), 1);
    assert_eq!(games[0].path, "/steam/pavlov");
    assert_eq!(games[0].metadata.name, "Pavlov");
    assert!(matches!(games[0].state, GameState::Unpatched));
}

#[test]
fn scan_swallows_per_child_classification_errors() {
    let root = ScanRoot {
        exists: true,
        is_dir: true,
        children: vec![
            CandidateFolder {
                path: "/steam/broken".to_string(),
                is_dir: true,
                snapshot: snap(&["Pavlov.exe"]),
                probe: Err(ConfigParseError::DeserializeError),
            },
            dir_child("/steam/pavlov", &["Pavlov.exe"]),
        ],
    };
    let games = search_folder(root, &catalog()).unwrap();
    assert_eq!(games.len(), 1);
    assert_eq!(games[0].path, "/steam/pavlov");
}
