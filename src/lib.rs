//! Keyboard sound packs: resolving a key to a sound, editing a pack's
//! sound slots, ordering discovered packs, and the playback state that
//! decides what is played.

pub mod custom_pack;
pub mod discovery;
pub mod naming;
pub mod paths;
pub mod slots;
pub mod sound_engine;
pub mod sound_pack;
pub mod str_map;
pub mod text;
