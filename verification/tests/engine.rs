use mod_swapper::error::{EngineError, Phase};
use mod_swapper::root::Root;
use mod_swapper::swap::{check_swap, swap_configs};

fn names(list: &[&str]) -> Vec<String> {
    list.iter().map(|s| s.to_string()).collect()
}

fn two_sets() -> Root {
    let mut root = Root::new();
    assert!(root.add_set("vanilla"));
    assert!(root.add_set("hardcore"));
    assert!(root.add_parked_file("vanilla", "map.jar"));
    assert!(root.add_parked_file("vanilla", "hud.jar"));
    assert!(root.add_parked_file("hardcore", "hunger.jar"));
    assert!(root.add_parked_file("hardcore", "thirst.jar"));
    assert!(root.add_parked_file("hardcore", "night.jar"));
    root
}

#[test]
fn swap_walks_through_vanilla_and_hardcore() {
    let mut root = two_sets();

    let pointer = swap_configs(&mut root, "", "vanilla").unwrap();
    assert_eq!(pointer, "vanilla");
    assert_eq!(root.loose_files(), names(&["map.jar", "hud.jar"]));
    assert_eq!(root.files_in("vanilla"), Some(names(&[])));
    assert_eq!(
        root.files_in("hardcore"),
        Some(names(&["hunger.jar", "thirst.jar", "night.jar"]))
    );

    let pointer = swap_configs(&mut root, &pointer, "hardcore").unwrap();
    assert_eq!(pointer, "hardcore");
    assert_eq!(
        root.loose_files(),
        names(&["hunger.jar", "thirst.jar", "night.jar"])
    );
    assert_eq!(root.files_in("vanilla"), Some(names(&["map.jar", "hud.jar"])));
    assert_eq!(root.files_in("hardcore"), Some(names(&[])));

    let pointer = swap_configs(&mut root, &pointer, "hardcore").unwrap();
    assert_eq!(pointer, "");
    assert_eq!(root.loose_files(), names(&[]));
    assert_eq!(
        root.files_in("hardcore"),
        Some(names(&["hunger.jar", "thirst.jar", "night.jar"]))
    );
    assert_eq!(root.files_in("vanilla"), Some(names(&["map.jar", "hud.jar"])));
}

#[test]
fn swap_to_unknown_target_is_invalid_and_changes_nothing() {
    let mut root = two_sets();
    mod_swapper::store::update_config_file(&mut root, "");
    let record = root.record();

    assert_eq!(
        swap_configs(&mut root, "", "creative"),
        Err(EngineError::InvalidTarget)
    );
    assert_eq!(root.loose_files(), names(&[]));
    assert_eq!(root.files_in("vanilla"), Some(names(&["map.jar", "hud.jar"])));
    assert_eq!(
        root.files_in("hardcore"),
        Some(names(&["hunger.jar", "thirst.jar", "night.jar"]))
    );
    assert_eq!(root.catalog(), names(&["vanilla", "hardcore"]));
    assert_eq!(root.record(), record);
}

#[test]
fn unknown_target_is_invalid_while_a_set_is_active() {
    let mut root = two_sets();
    let pointer = swap_configs(&mut root, "", "vanilla").unwrap();
    assert_eq!(
        swap_configs(&mut root, &pointer, "creative"),
        Err(EngineError::InvalidTarget)
    );
    assert_eq!(root.loose_files(), names(&["map.jar", "hud.jar"]));
    assert_eq!(root.files_in("vanilla"), Some(names(&[])));
}

#[test]
fn empty_target_is_invalid() {
    let mut root = two_sets();
    assert_eq!(swap_configs(&mut root, "", ""), Err(EngineError::InvalidTarget));
}

#[test]
fn toggle_parks_every_file_of_the_active_set() {
    for count in [0usize, 1, 3, 10] {
        let mut root = Root::new();
        assert!(root.add_set("pack"));
        assert!(root.add_set("other"));
        let mut files = Vec::new();
        for i in 0..count {
            let file = format!("mod{}.jar", i);
            assert!(root.add_parked_file("pack", &file));
            files.push(file);
        }
        let pointer = swap_configs(&mut root, "", "pack").unwrap();
        assert_eq!(pointer, "pack");
        assert_eq!(root.loose_files(), files);

        let pointer = swap_configs(&mut root, &pointer, "pack").unwrap();
        assert_eq!(pointer, "");
        assert_eq!(root.loose_files(), names(&[]));
        assert_eq!(root.files_in("pack"), Some(files));
        assert_eq!(root.files_in("other"), Some(names(&[])));
    }
}

#[test]
fn empty_set_can_be_active_and_left_again() {
    let mut root = two_sets();
    assert!(root.add_set("bare"));

    let pointer = swap_configs(&mut root, "", "bare").unwrap();
    assert_eq!(pointer, "bare");
    assert_eq!(root.loose_files(), names(&[]));

    let pointer = swap_configs(&mut root, &pointer, "vanilla").unwrap();
    assert_eq!(pointer, "vanilla");
    assert_eq!(root.loose_files(), names(&["map.jar", "hud.jar"]));
    assert_eq!(root.files_in("bare"), Some(names(&[])));
    assert_eq!(root.files_in("vanilla"), Some(names(&[])));
}

#[test]
fn loose_files_are_those_of_the_pointer_after_every_swap() {
    let homes: Vec<(&str, Vec<String>)> = vec![
        ("vanilla", names(&["map.jar", "hud.jar"])),
        ("hardcore", names(&["hunger.jar", "thirst.jar", "night.jar"])),
        ("bare", names(&[])),
    ];
    let mut root = two_sets();
    assert!(root.add_set("bare"));
    let mut pointer = String::new();
    let targets = [
        "vanilla", "hardcore", "hardcore", "bare", "missing", "vanilla", "vanilla", "bare",
        "bare", "hardcore", "vanilla",
    ];
    for target in targets {
        match swap_configs(&mut root, &pointer, target) {
            Ok(next) => pointer = next,
            Err(e) => assert_eq!(e, EngineError::InvalidTarget),
        }
        let mut loose = root.loose_files();
        loose.sort();
        let mut expected = Vec::new();
        for (name, files) in &homes {
            let mut parked = root.files_in(name).unwrap();
            parked.sort();
            let mut own = files.clone();
            own.sort();
            if *name == pointer {
                assert_eq!(parked, names(&[]));
                expected = own;
            } else {
                assert_eq!(parked, own);
            }
        }
        assert_eq!(loose, expected);
    }
    assert_eq!(pointer, "vanilla");
}

#[test]
fn park_conflict_names_the_first_file_and_moves_nothing() {
    let mut root = two_sets();
    assert!(root.add_loose_file("extra.jar"));
    assert!(root.add_loose_file("hud.jar"));
    assert!(root.add_loose_file("map.jar"));

    let expected = EngineError::RelocationConflict {
        file: "hud.jar".to_string(),
        phase: Phase::Park,
    };
    assert_eq!(check_swap(&root, "vanilla", "hardcore"), Err(expected));
    let expected = EngineError::RelocationConflict {
        file: "hud.jar".to_string(),
        phase: Phase::Park,
    };
    assert_eq!(swap_configs(&mut root, "vanilla", "hardcore"), Err(expected));
    assert_eq!(
        root.loose_files(),
        names(&["extra.jar", "hud.jar", "map.jar"])
    );
    assert_eq!(root.files_in("vanilla"), Some(names(&["map.jar", "hud.jar"])));
}

#[test]
fn pull_conflict_names_the_first_file_and_moves_nothing() {
    let mut root = two_sets();
    assert!(root.add_loose_file("night.jar"));
    assert!(root.add_loose_file("thirst.jar"));

    let expected = EngineError::RelocationConflict {
        file: "thirst.jar".to_string(),
        phase: Phase::Pull,
    };
    assert_eq!(swap_configs(&mut root, "", "hardcore"), Err(expected));
    assert_eq!(root.loose_files(), names(&["night.jar", "thirst.jar"]));
    assert_eq!(
        root.files_in("hardcore"),
        Some(names(&["hunger.jar", "thirst.jar", "night.jar"]))
    );
}

#[test]
fn stray_loose_files_stay_when_no_set_was_active() {
    let mut root = two_sets();
    assert!(root.add_loose_file("stray.jar"));
    let pointer = swap_configs(&mut root, "", "vanilla").unwrap();
    assert_eq!(pointer, "vanilla");
    assert_eq!(
        root.loose_files(),
        names(&["stray.jar", "map.jar", "hud.jar"])
    );
}

#[test]
fn parking_into_a_missing_set_is_an_io_failure() {
    let mut root = two_sets();
    assert!(root.add_loose_file("stray.jar"));
    let expected = EngineError::IOFailure {
        path: "gone".to_string(),
        phase: Phase::Park,
    };
    assert_eq!(swap_configs(&mut root, "gone", "vanilla"), Err(expected));
    assert_eq!(root.loose_files(), names(&["stray.jar"]));
    assert_eq!(root.files_in("vanilla"), Some(names(&["map.jar", "hud.jar"])));
}

#[test]
fn stale_pointer_with_nothing_loose_goes_through() {
    let mut root = two_sets();
    let pointer = swap_configs(&mut root, "gone", "vanilla").unwrap();
    assert_eq!(pointer, "vanilla");
    assert_eq!(root.loose_files(), names(&["map.jar", "hud.jar"]));
}

#[test]
fn phases_work_one_by_one() {
    let mut root = two_sets();
    assert_eq!(root.check_pull("hardcore"), Ok(()));
    assert_eq!(root.pull("hardcore"), Ok(()));
    assert_eq!(
        root.loose_files(),
        names(&["hunger.jar", "thirst.jar", "night.jar"])
    );
    assert_eq!(root.pull("nowhere"), Err(EngineError::InvalidTarget));
    assert_eq!(root.check_park("vanilla"), Ok(()));
    assert_eq!(root.park("vanilla"), Ok(()));
    assert_eq!(root.loose_files(), names(&[]));
    assert_eq!(
        root.files_in("vanilla"),
        Some(names(&["map.jar", "hud.jar", "hunger.jar", "thirst.jar", "night.jar"]))
    );
    assert_eq!(root.park("nowhere"), Ok(()));
}

#[test]
fn builders_refuse_what_a_directory_cannot_hold() {
    let mut root = Root::new();
    assert_eq!(root.catalog(), names(&[]));
    assert!(!root.add_set(""));
    assert!(root.add_set("vanilla"));
    assert!(!root.add_set("vanilla"));
    assert!(root.add_set("Vanilla"));
    assert_eq!(root.catalog(), names(&["vanilla", "Vanilla"]));
    assert_eq!(root.position("Vanilla"), Some(1));
    assert_eq!(root.position("hardcore"), None);

    assert!(root.add_loose_file("a.jar"));
    assert!(!root.add_loose_file("a.jar"));
    assert!(root.add_parked_file("vanilla", "a.jar"));
    assert!(!root.add_parked_file("vanilla", "a.jar"));
    assert!(!root.add_parked_file("hardcore", "a.jar"));
    assert_eq!(root.files_in("hardcore"), None);
    assert_eq!(root.files_in("vanilla"), Some(names(&["a.jar"])));
    assert_eq!(root.files_in("Vanilla"), Some(names(&[])));
}
