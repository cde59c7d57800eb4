use mod_manager::game_discovery::{FolderSnapshot, GameDiscoveryRequirement};

fn snap(paths: &[&str]) -> FolderSnapshot {
    FolderSnapshot { present: paths.iter().map(|p| p.to_string()).collect() }
}

#[test]
fn empty_and_holds_of_every_folder() {
    let req = GameDiscoveryRequirement::And(Vec::new());
    assert!(req.eval_in(&snap(&[])));
    assert!(req.eval_in(&snap(&["a", "b"])));
}

#[test]
fn empty_or_holds_of_no_folder() {
    let req = GameDiscoveryRequirement::Or(Vec::new());
    assert!(!req.eval_in(&snap(&[])));
    assert!(!req.eval_in(&snap(&["a", "b"])));
}

#[test]
fn file_exists_checks_presence() {
    let req = GameDiscoveryRequirement::FileExists("game.exe".to_string());
    assert!(req.eval_in(&snap(&["game.exe"])));
    assert!(req.eval_in(&snap(&["other", "game.exe"])));
    assert!(!req.eval_in(&snap(&["other"])));
    assert!(!req.eval_in(&snap(&[])));
}

#[test]
fn and_of_or_matches_truth_table() {
    let req = GameDiscoveryRequirement::And(vec![
        GameDiscoveryRequirement::Or(vec![
            GameDiscoveryRequirement::FileExists("a".to_string()),
            GameDiscoveryRequirement::FileExists("b".to_string()),
        ]),
        GameDiscoveryRequirement::FileExists("c".to_string()),
    ]);
    for a in [false, true] {
        for b in [false, true] {
            for c in [false, true] {
                let mut present = Vec::new();
                if a {
                    present.push("a");
                }
                if b {
                    present.push("b");
                }
                if c {
                    present.push("c");
                }
                let expected = (a || b) && c;
                assert_eq!(req.eval_in(&snap(&present)), expected);
            }
        }
    }
}

#[test]
fn verify_probes_the_disk_and_never_fails() {
    let base = "/this/folder/does/not/exist/anywhere".to_string();
    let and_empty = GameDiscoveryRequirement::And(Vec::new());
    assert_eq!(and_empty.verify(&base), Ok(true));
    let or_empty = GameDiscoveryRequirement::Or(Vec::new());
    assert_eq!(or_empty.verify(&base), Ok(false));
    let absent = GameDiscoveryRequirement::FileExists("nothing.here".to_string());
    assert_eq!(absent.verify(&base), Ok(false));
}

#[test]
fn clone_preserves_the_requirement() {
    let req = GameDiscoveryRequirement::And(vec![
        GameDiscoveryRequirement::Or(vec![GameDiscoveryRequirement::FileExists("a".to_string())]),
        GameDiscoveryRequirement::FileExists("c".to_string()),
    ]);
    let copy = req.clone();
    let s1 = snap(&["a", "c"]);
    let s2 = snap(&["c"]);
    assert_eq!(req.eval_in(&s1), copy.eval_in(&s1));
    assert_eq!(req.eval_in(&s2), copy.eval_in(&s2));
}
