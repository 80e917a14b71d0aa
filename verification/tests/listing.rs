use mod_swapper::listing::{get_all_configs, get_all_mod_files_in_dir, Entry, EntryKind};
use mod_swapper::names::{get_name_of_dir_or_file, is_mod_file_name, plain_name};

fn entry(name: &str, kind: EntryKind) -> Entry {
    Entry { name: name.to_string(), kind }
}

fn some(name: &str) -> Option<String> {
    Some(name.to_string())
}

#[test]
fn name_is_the_final_component() {
    assert_eq!(get_name_of_dir_or_file("/home/me/mods/map.jar"), some("map.jar"));
    assert_eq!(get_name_of_dir_or_file("tmp/foo.txt"), some("foo.txt"));
    assert_eq!(get_name_of_dir_or_file("mods/sets/hardcore"), some("hardcore"));
    assert_eq!(get_name_of_dir_or_file("plain"), some("plain"));
    assert_eq!(get_name_of_dir_or_file("/rooted"), some("rooted"));
    assert_eq!(get_name_of_dir_or_file("mods/模组.jar"), some("模组.jar"));
    assert_eq!(get_name_of_dir_or_file("mods/two words.jar"), some("two words.jar"));
}

#[test]
fn name_sets_trailing_separators_aside() {
    assert_eq!(get_name_of_dir_or_file("/usr/bin/"), some("bin"));
    assert_eq!(get_name_of_dir_or_file("mods/vanilla/"), some("vanilla"));
    assert_eq!(get_name_of_dir_or_file("mods/vanilla//"), some("vanilla"));
    assert_eq!(get_name_of_dir_or_file("foo.txt/."), some("foo.txt"));
    assert_eq!(get_name_of_dir_or_file("foo.txt/.//"), some("foo.txt"));
}

#[test]
fn path_without_final_component_has_no_name() {
    assert_eq!(get_name_of_dir_or_file(""), None);
    assert_eq!(get_name_of_dir_or_file("/"), None);
    assert_eq!(get_name_of_dir_or_file(".."), None);
    assert_eq!(get_name_of_dir_or_file("mods/.."), None);
    assert_eq!(get_name_of_dir_or_file("foo.txt/.."), None);
    assert_eq!(get_name_of_dir_or_file("."), None);
}

#[test]
fn only_a_plain_name_is_kept() {
    assert_eq!(plain_name(some("vanilla")), some("vanilla"));
    assert_eq!(plain_name(some("...")), some("..."));
    assert_eq!(plain_name(some(".jar")), some(".jar"));
    assert_eq!(plain_name(some("")), None);
    assert_eq!(plain_name(some(".")), None);
    assert_eq!(plain_name(some("..")), None);
    assert_eq!(plain_name(None), None);
}

#[test]
fn entry_takes_its_name_from_the_path() {
    assert_eq!(
        Entry::from_path("/games/mods/vanilla/", EntryKind::Directory),
        Some(entry("vanilla", EntryKind::Directory))
    );
    assert_eq!(
        Entry::from_path("mods/map.jar", EntryKind::File),
        Some(entry("map.jar", EntryKind::File))
    );
    assert_eq!(Entry::from_path("mods/..", EntryKind::Directory), None);
    assert_eq!(Entry::from_path("", EntryKind::Other), None);
}

#[test]
fn mod_files_end_in_the_marker() {
    assert!(is_mod_file_name("map.jar"));
    assert!(is_mod_file_name(".jar"));
    assert!(is_mod_file_name("a.b.jar"));
    assert!(is_mod_file_name("模组.jar"));
    assert!(!is_mod_file_name("jar"));
    assert!(!is_mod_file_name(""));
    assert!(!is_mod_file_name("map.JAR"));
    assert!(!is_mod_file_name("map.jar.bak"));
    assert!(!is_mod_file_name("map.jar "));
    assert!(!is_mod_file_name("mapjar"));
    assert!(!is_mod_file_name("configs.json"));
}

#[test]
fn catalog_is_every_directory_in_listing_order() {
    let listing = vec![
        entry("zeta", EntryKind::Directory),
        entry("configs.json", EntryKind::File),
        entry("map.jar", EntryKind::File),
        entry("alpha", EntryKind::Directory),
        entry("pipe", EntryKind::Other),
        entry("odd.jar", EntryKind::Directory),
    ];
    assert_eq!(get_all_configs(&listing), vec!["zeta", "alpha", "odd.jar"]);
    assert_eq!(get_all_configs(&Vec::new()), Vec::<String>::new());
}

#[test]
fn inventory_is_every_regular_file_with_the_marker() {
    let listing = vec![
        entry("zeta", EntryKind::Directory),
        entry("configs.json", EntryKind::File),
        entry("map.jar", EntryKind::File),
        entry("odd.jar", EntryKind::Directory),
        entry("link.jar", EntryKind::Other),
        entry("readme.txt", EntryKind::File),
        entry("hud.jar", EntryKind::File),
    ];
    assert_eq!(get_all_mod_files_in_dir(&listing), vec!["map.jar", "hud.jar"]);
    assert_eq!(get_all_mod_files_in_dir(&Vec::new()), Vec::<String>::new());
}

#[test]
fn listing_read_from_paths_gives_names() {
    let paths = [
        ("/games/mods/vanilla", EntryKind::Directory),
        ("/games/mods/hardcore/", EntryKind::Directory),
        ("/games/mods/map.jar", EntryKind::File),
        ("/games/mods/configs.json", EntryKind::File),
    ];
    let mut listing = Vec::new();
    for (path, kind) in paths {
        listing.push(Entry::from_path(path, kind).unwrap());
    }
    assert_eq!(get_all_configs(&listing), vec!["vanilla", "hardcore"]);
    assert_eq!(get_all_mod_files_in_dir(&listing), vec!["map.jar"]);
}

#[test]
fn listing_without_repeats_lists_nothing_twice() {
    let listing = vec![
        entry("a.jar", EntryKind::File),
        entry("sets", EntryKind::Directory),
        entry("b.jar", EntryKind::File),
        entry("more", EntryKind::Directory),
        entry("c.jar", EntryKind::Directory),
    ];
    let sets = get_all_configs(&listing);
    let files = get_all_mod_files_in_dir(&listing);
    assert_eq!(sets, vec!["sets", "more", "c.jar"]);
    assert_eq!(files, vec!["a.jar", "b.jar"]);
    for list in [&sets, &files] {
        for (i, name) in list.iter().enumerate() {
            assert!(listing.iter().any(|e| &e.name == name));
            assert!(!list[i + 1..].contains(name));
        }
    }
}
