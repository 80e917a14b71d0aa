use mod_swapper::error::EngineError;
use mod_swapper::root::Root;
use mod_swapper::store::{
    config_file_exists, create_config_file, decode_pointer, encode_pointer, get_current_config,
    update_config_file,
};

#[test]
fn saved_pointer_is_loaded_again() {
    for pointer in ["", "vanilla", "hard core", "Ünïcödé-模组", "a\nb", "with\\slash/es"] {
        let mut root = Root::new();
        update_config_file(&mut root, pointer);
        assert_eq!(get_current_config(&mut root), Ok(pointer.to_string()));
        assert_eq!(root.record(), Some(pointer.as_bytes().to_vec()));
    }
}

#[test]
fn save_replaces_the_whole_record() {
    let mut root = Root::new();
    update_config_file(&mut root, "a-long-name-of-a-set");
    update_config_file(&mut root, "b");
    assert_eq!(root.record(), Some(b"b".to_vec()));
    assert_eq!(get_current_config(&mut root), Ok("b".to_string()));
    update_config_file(&mut root, "");
    assert_eq!(root.record(), Some(Vec::new()));
    assert_eq!(get_current_config(&mut root), Ok(String::new()));
}

#[test]
fn missing_record_is_created_empty() {
    let mut root = Root::new();
    assert!(!config_file_exists(&root));
    assert_eq!(root.record(), None);
    assert_eq!(get_current_config(&mut root), Ok(String::new()));
    assert!(config_file_exists(&root));
    assert_eq!(root.record(), Some(Vec::new()));
}

#[test]
fn create_leaves_an_existing_record_alone() {
    let mut root = Root::new();
    create_config_file(&mut root);
    assert_eq!(root.record(), Some(Vec::new()));
    root.write_record(b"vanilla".to_vec());
    create_config_file(&mut root);
    assert_eq!(root.record(), Some(b"vanilla".to_vec()));
}

#[test]
fn record_that_is_no_text_is_corrupt() {
    let mut root = Root::new();
    root.write_record(vec![0x76, 0x61, 0xff, 0x6e]);
    assert_eq!(get_current_config(&mut root), Err(EngineError::StoreCorrupt));
    assert_eq!(root.record(), Some(vec![0x76, 0x61, 0xff, 0x6e]));
    assert_eq!(decode_pointer(vec![0xc3]), Err(EngineError::StoreCorrupt));
    assert_eq!(decode_pointer(vec![0xed, 0xa0, 0x80]), Err(EngineError::StoreCorrupt));
}

#[test]
fn record_is_the_pointer_in_utf8() {
    assert_eq!(encode_pointer(""), Vec::<u8>::new());
    assert_eq!(encode_pointer("vanilla"), b"vanilla".to_vec());
    assert_eq!(encode_pointer("é"), vec![0xc3, 0xa9]);
    assert_eq!(decode_pointer(b"vanilla".to_vec()), Ok("vanilla".to_string()));
    assert_eq!(decode_pointer(vec![0xc3, 0xa9]), Ok("é".to_string()));
    assert_eq!(decode_pointer(Vec::new()), Ok(String::new()));
}

#[test]
fn swap_leaves_the_record_alone() {
    let mut root = Root::new();
    assert!(root.add_set("vanilla"));
    assert!(root.add_parked_file("vanilla", "map.jar"));
    update_config_file(&mut root, "");
    let pointer = mod_swapper::swap::swap_configs(&mut root, "", "vanilla").unwrap();
    assert_eq!(get_current_config(&mut root), Ok(String::new()));
    update_config_file(&mut root, &pointer);
    assert_eq!(get_current_config(&mut root), Ok("vanilla".to_string()));
}
