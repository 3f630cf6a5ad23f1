use keysound::sound_engine::{sound_paths, SoundEngine, KEY_REPEAT_COOLDOWN_MS};
use keysound::sound_pack::{CategoryOverride, KeySound, SoundDefaults, SoundPack};
use keysound::str_map::StrMap;

fn pack_at(base: &str) -> SoundPack {
    SoundPack {
        id: "test".to_string(),
        name: "test".to_string(),
        author: String::new(),
        version: String::new(),
        description: String::new(),
        source: None,
        defaults: SoundDefaults { keydown: "sounds/keydown.wav".to_string(), keyup: None, volume: 1000 },
        key_overrides: StrMap::new(),
        category_overrides: StrMap::new(),
        original_names: StrMap::new(),
        base_path: base.to_string(),
    }
}

#[test]
fn test_key_cooldown_constant() {
    assert_eq!(KEY_REPEAT_COOLDOWN_MS, 80);
}

#[test]
fn test_key_not_in_cooldown_initially() {
    let engine = SoundEngine::new();
    assert!(!engine.is_key_in_cooldown("KeyA", 5000));
    assert!(!engine.is_key_in_cooldown("Space", 5000));
}

#[test]
fn test_key_in_cooldown_after_play() {
    let mut engine = SoundEngine::new();
    engine.record_key_play("KeyA", 5000);
    assert!(engine.is_key_in_cooldown("KeyA", 5000));
    assert!(!engine.is_key_in_cooldown("KeyB", 5000));
}

#[test]
fn test_key_cooldown_expires() {
    let mut engine = SoundEngine::new();
    engine.record_key_play("KeyA", 5000);
    assert!(!engine.is_key_in_cooldown("KeyA", 5100));
}

#[test]
fn test_key_cooldown_not_expired() {
    let mut engine = SoundEngine::new();
    engine.record_key_play("KeyA", 5000);
    assert!(engine.is_key_in_cooldown("KeyA", 5030));
}

#[test]
fn test_key_cooldown_boundary() {
    let mut engine = SoundEngine::new();
    engine.record_key_play("KeyA", 5000);
    assert!(!engine.is_key_in_cooldown("KeyA", 5080));
}

#[test]
fn test_key_cooldown_independent_keys() {
    let mut engine = SoundEngine::new();
    engine.record_key_play("KeyA", 5000);
    engine.record_key_play("KeyB", 5000);
    assert!(engine.is_key_in_cooldown("KeyA", 5000));
    assert!(engine.is_key_in_cooldown("KeyB", 5000));
    assert!(!engine.is_key_in_cooldown("KeyC", 5000));
}

#[test]
fn test_cooldown_real_wait() {
    let mut engine = SoundEngine::new();
    engine.record_key_play("KeyA", 5000);
    assert!(engine.is_key_in_cooldown("KeyA", 5000));
    assert!(!engine.is_key_in_cooldown("KeyA", 5090));
}

#[test]
fn test_volume_clamp() {
    let mut engine = SoundEngine::new();
    engine.set_volume(500);
    assert_eq!(engine.get_volume(), 500);
    engine.set_volume(1500);
    assert_eq!(engine.get_volume(), 1000);
    engine.set_volume(-500);
    assert_eq!(engine.get_volume(), 0);
}

#[test]
fn test_toggle_sound() {
    let mut engine = SoundEngine::new();
    assert!(engine.is_enabled());
    assert!(!engine.toggle());
    assert!(!engine.is_enabled());
    assert!(engine.toggle());
    assert!(engine.is_enabled());
}

#[test]
fn test_set_enabled() {
    let mut engine = SoundEngine::new();
    engine.set_enabled(false);
    assert!(!engine.is_enabled());
    engine.set_enabled(true);
    assert!(engine.is_enabled());
}

#[test]
fn test_active_pack_id_none() {
    let engine = SoundEngine::new();
    assert!(engine.active_pack_id().is_none());
}

#[test]
fn play_key_debounce_scenario() {
    let mut engine = SoundEngine::new();
    let pack = pack_at("/packs/test");
    let paths = sound_paths(&pack);
    engine.load_pack(pack, paths);
    assert_eq!(engine.active_pack_id().as_deref(), Some("test"));
    let first = engine.play_key("KeyA", 0).unwrap();
    assert_eq!(first.path, "/packs/test/sounds/keydown.wav");
    assert_eq!(first.amplitude, 1_000_000);
    assert!(engine.play_key("KeyA", 30).is_none());
    assert!(engine.play_key("KeyA", 80).is_some());
    assert!(engine.play_key("KeyA", 100).is_none());
    assert!(engine.play_key("KeyA", 170).is_some());
}

#[test]
fn play_key_replay_at_90_is_played() {
    let mut engine = SoundEngine::new();
    let pack = pack_at("/packs/test");
    let paths = sound_paths(&pack);
    engine.load_pack(pack, paths);
    assert!(engine.play_key("KeyA", 0).is_some());
    assert!(engine.play_key("KeyB", 10).is_some());
    assert!(engine.play_key("KeyA", 90).is_some());
}

#[test]
fn play_key_does_nothing_when_disabled_or_empty() {
    let mut engine = SoundEngine::new();
    assert!(engine.play_key("KeyA", 0).is_none());
    let pack = pack_at("/packs/test");
    let paths = sound_paths(&pack);
    engine.load_pack(pack, paths);
    engine.set_enabled(false);
    assert!(engine.play_key("KeyA", 0).is_none());
    engine.set_enabled(true);
    assert!(engine.play_key("KeyA", 0).is_some());
}

#[test]
fn play_key_skips_sounds_that_were_not_decoded() {
    let mut engine = SoundEngine::new();
    let mut pack = pack_at("/packs/test");
    pack.key_overrides.insert(
        "Space".into(),
        KeySound { keydown: Some("sounds/space.wav".into()), keyup: None, volume: Some(500) },
    );
    engine.load_pack(pack, vec!["/packs/test/sounds/keydown.wav".to_string()]);
    assert!(engine.play_key("Space", 0).is_none());
    assert!(!engine.is_key_in_cooldown("Space", 1));
    assert!(engine.play_key("KeyA", 0).is_some());
}

#[test]
fn play_key_volume_is_master_times_key() {
    let mut engine = SoundEngine::new();
    let mut pack = pack_at("/packs/test");
    pack.key_overrides.insert(
        "Space".into(),
        KeySound { keydown: None, keyup: None, volume: Some(500) },
    );
    let paths = sound_paths(&pack);
    engine.load_pack(pack, paths);
    engine.set_volume(800);
    let req = engine.play_key("Space", 0).unwrap();
    assert_eq!(req.path, "/packs/test/sounds/keydown.wav");
    assert_eq!(req.amplitude, 400_000);
}

#[test]
fn sound_paths_are_distinct_and_sorted() {
    let mut pack = pack_at("/p");
    pack.defaults.keyup = Some("sounds/up.wav".into());
    pack.key_overrides.insert(
        "Space".into(),
        KeySound { keydown: Some("sounds/keydown.wav".into()), keyup: Some("sounds/b.wav".into()), volume: None },
    );
    pack.category_overrides.insert(
        "delete".into(),
        CategoryOverride {
            keys: vec!["Backspace".into()],
            keydown: Some("sounds/a.wav".into()),
            keyup: None,
            volume: None,
        },
    );
    let paths = sound_paths(&pack);
    assert_eq!(
        paths,
        vec!["/p/sounds/a.wav", "/p/sounds/b.wav", "/p/sounds/keydown.wav", "/p/sounds/up.wav"]
    );
}
