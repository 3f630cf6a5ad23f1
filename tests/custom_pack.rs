use keysound::custom_pack::{
    check_import_extension, check_import_size, new_custom_pack, plan_import, remove_slot, rename_pack, silence_wav,
    DataVersion, DATA_VERSION,
};
use keysound::discovery::discover_all_packs;
use keysound::naming::{slugify, unique_id};
use keysound::slots::{apply_slot_to_pack, get_all_slots, get_slot_path, parse_slot, Slot};
use keysound::sound_pack::{KeySound, SoundDefaults, SoundPack};
use keysound::str_map::StrMap;

fn test_pack(id: &str, source: Option<&str>) -> SoundPack {
    SoundPack {
        id: id.to_string(),
        name: id.to_uppercase(),
        author: "Test".to_string(),
        version: "1.0.0".to_string(),
        description: String::new(),
        source: source.map(|s| s.to_string()),
        defaults: SoundDefaults { keydown: "sounds/keydown.wav".to_string(), keyup: None, volume: 800 },
        key_overrides: StrMap::new(),
        category_overrides: StrMap::new(),
        original_names: StrMap::new(),
        base_path: format!("/packs/{}", id),
    }
}

fn fresh_pack(name: &str, existing: &Vec<String>) -> SoundPack {
    new_custom_pack("/data/user-soundpacks", name, existing, 0).unwrap()
}

fn import(pack: &mut SoundPack, slot: &str, src: &str) -> keysound::custom_pack::ImportPlan {
    let ext = check_import_extension(src).unwrap();
    check_import_size(16).unwrap();
    plan_import(pack, slot, src, &ext)
}

#[test]
fn test_slugify_basic() {
    assert_eq!(slugify("My Custom Pack"), "my-custom-pack");
}

#[test]
fn test_slugify_special_chars() {
    assert_eq!(slugify("Hello! @World# 123"), "hello-world-123");
}

#[test]
fn test_slugify_already_clean() {
    assert_eq!(slugify("clean"), "clean");
}

#[test]
fn test_slugify_leading_trailing_spaces() {
    assert_eq!(slugify("  spaced  "), "spaced");
}

#[test]
fn slugify_lowercases_beyond_ascii() {
    assert_eq!(slugify("ÄBC Déf"), "äbc-déf");
}

#[test]
fn slugify_treats_underscore_as_separator() {
    assert_eq!(slugify("a_b--c"), "a-b-c");
    assert_eq!(slugify("!!!"), "");
}

#[test]
fn test_unique_id_no_collision() {
    assert_eq!(unique_id("my-pack", &vec![], 0), "my-pack");
}

#[test]
fn test_unique_id_with_collision() {
    assert_eq!(unique_id("my-pack", &vec!["my-pack".to_string()], 0), "my-pack-2");
}

#[test]
fn test_unique_id_multiple_collisions() {
    let existing = vec!["my-pack".to_string(), "my-pack-2".to_string(), "my-pack-3".to_string()];
    assert_eq!(unique_id("my-pack", &existing, 0), "my-pack-4");
}

#[test]
fn unique_id_falls_back_to_timestamp() {
    let mut existing = vec!["p".to_string()];
    for i in 2..1000 {
        existing.push(format!("p-{}", i));
    }
    assert_eq!(unique_id("p", &existing, 1700000000), "p-1700000000");
}

#[test]
fn test_generate_silence_wav_creates_valid_wav() {
    let data = silence_wav();
    assert_eq!(&data[0..4], b"RIFF");
    assert_eq!(&data[8..12], b"WAVE");
    assert_eq!(&data[12..16], b"fmt ");
    assert_eq!(data.len(), 926);
    assert_eq!(&data[4..8], &(926u32 - 8).to_le_bytes());
    assert_eq!(&data[24..28], &44100u32.to_le_bytes());
    assert_eq!(&data[36..40], b"data");
    assert!(data[44..].iter().all(|b| *b == 0));
}

#[test]
fn data_version_current_is_up_to_date() {
    let v = DataVersion::current();
    assert_eq!(v.version, DATA_VERSION);
    assert!(!v.is_outdated());
    assert!(DataVersion { version: 0 }.is_outdated());
}

#[test]
fn test_apply_slot_default() {
    let mut pack = test_pack("p", Some("user"));
    apply_slot_to_pack(&mut pack, "default", Some("sounds/new.mp3".into()));
    assert_eq!(pack.defaults.keydown, "sounds/new.mp3");
}

#[test]
fn apply_slot_default_cannot_be_cleared() {
    let mut pack = test_pack("p", Some("user"));
    apply_slot_to_pack(&mut pack, "default", None);
    assert_eq!(pack.defaults.keydown, "sounds/keydown.wav");
}

#[test]
fn test_apply_slot_space() {
    let mut pack = test_pack("p", Some("user"));
    apply_slot_to_pack(&mut pack, "space", Some("sounds/space.mp3".into()));
    assert!(pack.key_overrides.contains_key("Space"));
    assert_eq!(pack.key_overrides.get("Space").unwrap().keydown.as_deref(), Some("sounds/space.mp3"));
    assert_eq!(pack.key_overrides.get("Space").unwrap().volume, Some(1000));
    apply_slot_to_pack(&mut pack, "space", None);
    assert!(!pack.key_overrides.contains_key("Space"));
}

#[test]
fn test_apply_slot_enter() {
    let mut pack = test_pack("p", Some("user"));
    apply_slot_to_pack(&mut pack, "enter", Some("sounds/enter.ogg".into()));
    assert_eq!(pack.key_overrides.get("Return").unwrap().keydown.as_deref(), Some("sounds/enter.ogg"));
}

#[test]
fn test_apply_slot_modifier() {
    let mut pack = test_pack("p", Some("user"));
    apply_slot_to_pack(&mut pack, "modifier", Some("sounds/mod.wav".into()));
    let cat = pack.category_overrides.get("modifiers").unwrap();
    assert_eq!(cat.keydown.as_deref(), Some("sounds/mod.wav"));
    assert!(cat.keys.contains(&"ShiftLeft".to_string()));
    assert_eq!(cat.keys.len(), 8);
    assert_eq!(cat.volume, Some(600));
    apply_slot_to_pack(&mut pack, "modifier", None);
    assert!(!pack.category_overrides.contains_key("modifiers"));
}

#[test]
fn test_apply_slot_backspace() {
    let mut pack = test_pack("p", Some("user"));
    apply_slot_to_pack(&mut pack, "backspace", Some("sounds/bs.mp3".into()));
    let cat = pack.category_overrides.get("delete").unwrap();
    assert_eq!(cat.keydown.as_deref(), Some("sounds/bs.mp3"));
    assert!(cat.keys.contains(&"Backspace".to_string()));
    assert_eq!(cat.volume, None);
}

#[test]
fn apply_slot_keeps_existing_override_fields() {
    let mut pack = test_pack("p", Some("user"));
    pack.key_overrides.insert(
        "Space".into(),
        KeySound { keydown: Some("sounds/a.wav".into()), keyup: Some("sounds/up.wav".into()), volume: Some(300) },
    );
    apply_slot_to_pack(&mut pack, "space", Some("sounds/b.wav".into()));
    let ks = pack.key_overrides.get("Space").unwrap();
    assert_eq!(ks.keydown.as_deref(), Some("sounds/b.wav"));
    assert_eq!(ks.keyup.as_deref(), Some("sounds/up.wav"));
    assert_eq!(ks.volume, Some(300));
}

#[test]
fn apply_slot_unknown_slot_changes_nothing() {
    let mut pack = test_pack("p", Some("user"));
    apply_slot_to_pack(&mut pack, "bogus", Some("sounds/x.wav".into()));
    assert_eq!(pack.key_overrides.len(), 0);
    assert_eq!(pack.category_overrides.len(), 0);
    assert_eq!(pack.defaults.keydown, "sounds/keydown.wav");
}

#[test]
fn test_get_slot_path_default() {
    let pack = test_pack("p", Some("user"));
    assert_eq!(get_slot_path(&pack, "default"), Some("sounds/keydown.wav".into()));
}

#[test]
fn test_get_slot_path_empty_slot() {
    let pack = test_pack("p", Some("user"));
    assert_eq!(get_slot_path(&pack, "space"), None);
}

#[test]
fn test_get_all_slots_fresh_pack() {
    let pack = test_pack("p", Some("user"));
    let slots = get_all_slots(&pack);
    assert_eq!(slots.len(), 5);
    assert_eq!(slots[0].slot, "default");
    assert!(slots[0].file_name.is_none());
    assert_eq!(slots[1].slot, "space");
    assert!(slots[1].file_name.is_none());
}

#[test]
fn get_all_slots_fixed_order_and_labels() {
    let pack = test_pack("p", Some("user"));
    let slots = get_all_slots(&pack);
    let ids: Vec<&str> = slots.iter().map(|s| s.slot.as_str()).collect();
    assert_eq!(ids, vec!["default", "space", "enter", "modifier", "backspace"]);
    let labels: Vec<&str> = slots.iter().map(|s| s.label.as_str()).collect();
    assert_eq!(labels, vec!["Default Key", "Space", "Enter", "Modifiers", "Backspace / Delete"]);
}

#[test]
fn test_get_all_slots_with_original_name() {
    let mut pack = test_pack("p", Some("user"));
    pack.original_names.insert("default".into(), "my-cool-sound.mp3".into());
    pack.original_names.insert("space".into(), "spacebar.wav".into());
    apply_slot_to_pack(&mut pack, "space", Some("sounds/keydown-space.wav".into()));
    let slots = get_all_slots(&pack);
    assert_eq!(slots[0].file_name.as_deref(), Some("my-cool-sound.mp3"));
    assert_eq!(slots[1].file_name.as_deref(), Some("spacebar.wav"));
}

#[test]
fn get_all_slots_falls_back_to_file_name_of_path() {
    let mut pack = test_pack("p", Some("user"));
    apply_slot_to_pack(&mut pack, "enter", Some("sounds/clack.ogg".into()));
    apply_slot_to_pack(&mut pack, "default", Some("sounds/tick.wav".into()));
    let slots = get_all_slots(&pack);
    assert_eq!(slots[0].file_name.as_deref(), Some("tick.wav"));
    assert_eq!(slots[2].file_name.as_deref(), Some("clack.ogg"));
}

#[test]
fn test_create_custom_pack() {
    let pack = new_custom_pack("/data/user-soundpacks", "My Sound", &vec![], 0).unwrap();
    assert_eq!(pack.id, "my-sound");
    assert_eq!(pack.name, "My Sound");
    assert_eq!(pack.source, Some("user".into()));
    assert_eq!(pack.base_path, "/data/user-soundpacks/my-sound");
    assert_eq!(pack.defaults.keydown, "sounds/keydown.wav");
    assert_eq!(pack.defaults.volume, 800);
    assert_eq!(pack.author, "User");
    assert_eq!(pack.version, "1.0.0");
}

#[test]
fn test_create_custom_pack_collision() {
    let p1 = fresh_pack("Same Name", &vec![]);
    let p2 = fresh_pack("Same Name", &vec![p1.id.clone()]);
    assert_eq!(p1.id, "same-name");
    assert_eq!(p2.id, "same-name-2");
}

#[test]
fn test_create_custom_pack_empty_name() {
    let result = new_custom_pack("/data/user-soundpacks", "  ", &vec![], 0);
    assert!(result.is_err());
    assert_eq!(result.err().unwrap(), "Pack name cannot be empty");
}

#[test]
fn create_custom_pack_trims_name() {
    let pack = fresh_pack("  Spaced Out \t", &vec![]);
    assert_eq!(pack.name, "Spaced Out");
    assert_eq!(pack.id, "spaced-out");
}

#[test]
fn test_import_sound_file() {
    let mut pack = fresh_pack("Test", &vec![]);
    let plan = import(&mut pack, "space", "/home/me/my-space-sound.mp3");
    assert!(pack.key_overrides.contains_key("Space"));
    assert_eq!(pack.original_names.get("space").map(|s| s.as_str()), Some("my-space-sound.mp3"));
    assert_eq!(plan.dest_path, "sounds/keydown-space.mp3");
    assert_eq!(pack.key_overrides.get("Space").unwrap().keydown.as_deref(), Some("sounds/keydown-space.mp3"));
    assert_eq!(plan.old_path, None);
}

#[test]
fn test_import_rejects_unsupported_format() {
    let result = check_import_extension("/home/me/sound.txt");
    assert!(result.is_err());
    let err = result.unwrap_err();
    assert!(err.contains("Unsupported format"));
    assert_eq!(err, "Unsupported format 'txt'. Use mp3, wav, or ogg.");
}

#[test]
fn import_extension_is_case_insensitive() {
    assert_eq!(check_import_extension("/x/LOUD.MP3").unwrap(), "mp3");
    assert_eq!(check_import_extension("/x/a.Ogg").unwrap(), "ogg");
    assert_eq!(check_import_extension("/x/noext").unwrap_err(), "Unsupported format ''. Use mp3, wav, or ogg.");
}

#[test]
fn import_size_limit() {
    assert!(check_import_size(5 * 1024 * 1024).is_ok());
    assert!(check_import_size(3 * 1024 * 1024).is_ok());
    assert_eq!(check_import_size(5 * 1024 * 1024 + 1).unwrap_err(), "File too large (5.0MB). Maximum is 5MB.");
    assert_eq!(check_import_size(6 * 1024 * 1024 + 600 * 1024).unwrap_err(), "File too large (6.6MB). Maximum is 5MB.");
}

#[test]
fn test_import_replaces_old_file_different_extension() {
    let mut pack = fresh_pack("Test", &vec![]);
    let first = import(&mut pack, "space", "/x/space.wav");
    assert_eq!(first.dest_path, "sounds/keydown-space.wav");
    let second = import(&mut pack, "space", "/x/space.mp3");
    assert_eq!(second.old_path.as_deref(), Some("sounds/keydown-space.wav"));
    assert_eq!(second.dest_path, "sounds/keydown-space.mp3");
}

#[test]
fn test_remove_slot() {
    let mut pack = fresh_pack("Test", &vec![]);
    import(&mut pack, "space", "/x/space.mp3");
    let old = remove_slot(&mut pack, "space");
    assert!(!pack.key_overrides.contains_key("Space"));
    assert!(!pack.original_names.contains_key("space"));
    assert_eq!(old.as_deref(), Some("sounds/keydown-space.mp3"));
}

#[test]
fn test_remove_default_slot_resets_to_silence() {
    let mut pack = fresh_pack("Test", &vec![]);
    import(&mut pack, "default", "/x/keydown.mp3");
    assert_eq!(pack.defaults.keydown, "sounds/keydown-default.mp3");
    let old = remove_slot(&mut pack, "default");
    assert_eq!(pack.defaults.keydown, "sounds/keydown.wav");
    assert!(!pack.original_names.contains_key("default"));
    assert_eq!(old.as_deref(), Some("sounds/keydown-default.mp3"));
}

#[test]
fn test_full_lifecycle() {
    let mut bundled_default = test_pack("default", None);
    bundled_default.base_path = "/data/soundpacks/default".into();
    let mut pack = fresh_pack("My Sounds", &vec![]);
    assert_eq!(pack.id, "my-sounds");
    import(&mut pack, "default", "/x/click.mp3");
    import(&mut pack, "space", "/x/spacebar.wav");
    let custom_id = pack.id.clone();
    let all = discover_all_packs(vec![bundled_default], vec![pack]);
    assert_eq!(all.len(), 2);
    assert_eq!(all[0].id, "default");
    assert_eq!(all[1].id, custom_id);
    let mut pack = all.into_iter().nth(1).unwrap();
    let slots = get_all_slots(&pack);
    assert_eq!(slots[0].file_name.as_deref(), Some("click.mp3"));
    assert_eq!(slots[1].file_name.as_deref(), Some("spacebar.wav"));
    remove_slot(&mut pack, "space");
    let slots = get_all_slots(&pack);
    assert!(slots[1].file_name.is_none());
}

#[test]
fn test_apply_slot_per_key() {
    let mut pack = test_pack("p", Some("user"));
    apply_slot_to_pack(&mut pack, "key:KeyA", Some("sounds/a.mp3".into()));
    assert!(pack.key_overrides.contains_key("KeyA"));
    assert_eq!(pack.key_overrides.get("KeyA").unwrap().keydown.as_deref(), Some("sounds/a.mp3"));
    apply_slot_to_pack(&mut pack, "key:KeyA", None);
    assert!(!pack.key_overrides.contains_key("KeyA"));
}

#[test]
fn test_get_slot_path_per_key() {
    let mut pack = test_pack("p", Some("user"));
    pack.key_overrides.insert(
        "KeyB".into(),
        KeySound { keydown: Some("sounds/b.wav".into()), keyup: None, volume: Some(1000) },
    );
    assert_eq!(get_slot_path(&pack, "key:KeyB"), Some("sounds/b.wav".into()));
    assert_eq!(get_slot_path(&pack, "key:KeyZ"), None);
}

#[test]
fn test_get_all_slots_with_per_key() {
    let mut pack = test_pack("p", Some("user"));
    pack.key_overrides.insert(
        "KeyA".into(),
        KeySound { keydown: Some("sounds/a.mp3".into()), keyup: None, volume: Some(1000) },
    );
    pack.original_names.insert("key:KeyA".into(), "a-sound.mp3".into());
    let slots = get_all_slots(&pack);
    assert_eq!(slots.len(), 6);
    let key_slot = slots.iter().find(|s| s.slot == "key:KeyA").unwrap();
    assert_eq!(key_slot.label, "KeyA");
    assert_eq!(key_slot.file_name.as_deref(), Some("a-sound.mp3"));
}

#[test]
fn test_get_all_slots_per_key_skips_space_return() {
    let mut pack = test_pack("p", Some("user"));
    apply_slot_to_pack(&mut pack, "space", Some("sounds/space.mp3".into()));
    apply_slot_to_pack(&mut pack, "enter", Some("sounds/enter.mp3".into()));
    apply_slot_to_pack(&mut pack, "key:KeyC", Some("sounds/c.mp3".into()));
    let slots = get_all_slots(&pack);
    assert_eq!(slots.len(), 6);
    assert!(slots.iter().any(|s| s.slot == "key:KeyC"));
    assert!(!slots.iter().any(|s| s.slot == "key:Space"));
    assert!(!slots.iter().any(|s| s.slot == "key:Return"));
}

#[test]
fn test_import_per_key_sound() {
    let mut pack = fresh_pack("Test", &vec![]);
    let plan = import(&mut pack, "key:KeyA", "/x/a-key.mp3");
    assert!(pack.key_overrides.contains_key("KeyA"));
    assert_eq!(pack.original_names.get("key:KeyA").map(|s| s.as_str()), Some("a-key.mp3"));
    assert_eq!(plan.dest_path, "sounds/keydown-key-KeyA.mp3");
}

#[test]
fn test_remove_per_key_slot() {
    let mut pack = fresh_pack("Test", &vec![]);
    import(&mut pack, "key:KeyB", "/x/b.wav");
    remove_slot(&mut pack, "key:KeyB");
    assert!(!pack.key_overrides.contains_key("KeyB"));
    assert!(!pack.original_names.contains_key("key:KeyB"));
}

#[test]
fn test_per_key_multiple_keys() {
    let mut pack = fresh_pack("Multi", &vec![]);
    import(&mut pack, "key:KeyA", "/x/a.mp3");
    import(&mut pack, "key:KeyB", "/x/b.wav");
    import(&mut pack, "key:Digit0", "/x/c.ogg");
    let slots = get_all_slots(&pack);
    assert_eq!(slots.len(), 8);
    let per_key: Vec<_> = slots.iter().filter(|s| s.slot.starts_with("key:")).collect();
    assert_eq!(per_key[0].slot, "key:Digit0");
    assert_eq!(per_key[1].slot, "key:KeyA");
    assert_eq!(per_key[2].slot, "key:KeyB");
}

#[test]
fn rename_pack_trims_and_refuses_empty() {
    let mut pack = fresh_pack("Old", &vec![]);
    assert!(rename_pack(&mut pack, "  New Name ").is_ok());
    assert_eq!(pack.name, "New Name");
    assert_eq!(pack.id, "old");
    assert_eq!(rename_pack(&mut pack, "   ").unwrap_err(), "Pack name cannot be empty");
    assert_eq!(pack.name, "New Name");
}

#[test]
fn parse_slot_forms() {
    assert!(matches!(parse_slot("default"), Some(Slot::Default)));
    assert!(matches!(parse_slot("backspace"), Some(Slot::Backspace)));
    match parse_slot("key:KeyA") {
        Some(Slot::Key(k)) => assert_eq!(k, "KeyA"),
        _ => panic!("expected a key slot"),
    }
    assert!(parse_slot("key").is_none());
    assert!(parse_slot("Space").is_none());
}
