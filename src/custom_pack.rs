//! Custom packs: creating them, and planning the edits that import a sound
//! into a slot or remove one. The caller carries out the file operations
//! that a plan names, then writes the manifest.
use vstd::prelude::*;
use crate::naming::{decimal, push_decimal, slug_of, slugify, unique_id, unique_id_of};
use crate::paths::{extension, extension_of, file_name, file_name_of, join_path, joined, opt_view};
use crate::slots::{apply_slot_to_pack, get_slot_path, slot_applied, slot_path};
use crate::sound_pack::{SoundDefaults, SoundPack};
use crate::str_map::StrMap;
use crate::text::{lower_of, lowercase, push_char, str_eq, trim, trimmed};

verus! {

/// The version of the application's data layout.
pub const DATA_VERSION: u32 = 1;

/// The largest sound file that can be imported, in bytes (5 MiB).
pub const MAX_FILE_SIZE: u64 = 5 * 1024 * 1024;

/// Volume, in thousandths, of a newly created pack.
pub const NEW_PACK_VOLUME: u32 = 800;

/// The stamp recording which data layout the application data follows.
pub struct DataVersion {
    pub version: u32,
}

impl DataVersion {
    /// The stamp of the current layout.
    pub fn current() -> (r: DataVersion)
        ensures
            r.version == DATA_VERSION,
    {
        DataVersion { version: DATA_VERSION }
    }

    /// Whether data stamped with this version must be brought up to date
    /// (and the stamp rewritten).
    pub fn is_outdated(&self) -> (r: bool)
        ensures
            r == (self.version < DATA_VERSION),
    {
        self.version < DATA_VERSION
    }
}

/// Where a pack keeps its generated silent default sound, relative to it.
pub open spec fn silence_path() -> Seq<char> {
    "sounds/keydown.wav"@
}

/// The message for an empty pack name.
pub open spec fn empty_name_message() -> Seq<char> {
    "Pack name cannot be empty"@
}

/// Builds the manifest of a new user pack named `name` (trimmed), to live
/// in `user_dir`. `existing` holds the names already in `user_dir`;
/// `now_secs` is the current time, for the last-resort id. The caller
/// creates the directory, its silent default sound and the manifest.
pub fn new_custom_pack(user_dir: &str, name: &str, existing: &Vec<String>, now_secs: u64) -> (r: Result<SoundPack, String>)
    ensures
        r is Err <==> trimmed(name@).len() == 0,
        r matches Err(e) ==> e@ == empty_name_message(),
        r matches Ok(p) ==> {
            &&& p.id@ == unique_id_of(slug_of(lower_of(trimmed(name@))), existing@, now_secs as nat)
            &&& p.name@ == trimmed(name@)
            &&& p.author@ == "User"@
            &&& p.version@ == "1.0.0"@
            &&& p.description@.len() == 0
            &&& opt_view(p.source) == Some("user"@)
            &&& p.defaults.keydown@ == silence_path()
            &&& p.defaults.keyup is None
            &&& p.defaults.volume == NEW_PACK_VOLUME
            &&& p.key_overrides@.is_empty()
            &&& p.category_overrides@.is_empty()
            &&& p.original_names@.is_empty()
            &&& p.base_path@ == joined(user_dir@, p.id@)
        },
{
    let name = trim(name);
    if name.as_str().unicode_len() == 0 {
        return Err(String::from_str("Pack name cannot be empty"));
    }
    let base_id = slugify(name.as_str());
    let id = unique_id(base_id.as_str(), existing, now_secs);
    let base_path = join_path(user_dir, id.as_str());
    Ok(SoundPack {
        id,
        name,
        author: String::from_str("User"),
        version: String::from_str("1.0.0"),
        description: String::new(),
        source: Some(String::from_str("user")),
        defaults: SoundDefaults { keydown: String::from_str("sounds/keydown.wav"), keyup: None, volume: NEW_PACK_VOLUME },
        key_overrides: StrMap::new(),
        category_overrides: StrMap::new(),
        original_names: StrMap::new(),
        base_path,
    })
}

/// Renames `pack` to `new_name`, trimmed; an empty name is refused and
/// leaves the pack as it was.
pub fn rename_pack(pack: &mut SoundPack, new_name: &str) -> (r: Result<(), String>)
    ensures
        r is Err <==> trimmed(new_name@).len() == 0,
        r matches Err(e) ==> e@ == empty_name_message() && *final(pack) == *old(pack),
        r is Ok ==> final(pack).name@ == trimmed(new_name@) && *final(pack) == (SoundPack { name: final(pack).name, ..*old(pack) }),
{
    let name = trim(new_name);
    if name.as_str().unicode_len() == 0 {
        return Err(String::from_str("Pack name cannot be empty"));
    }
    pack.name = name;
    Ok(())
}

/// The lowercased extension of a file to import (empty if it has none).
pub open spec fn import_ext(src_path: Seq<char>) -> Seq<char> {
    match extension_of(src_path) {
        Some(e) => lower_of(e),
        None => Seq::empty(),
    }
}

/// Whether sounds with extension `ext` can be imported.
pub open spec fn allowed_ext(ext: Seq<char>) -> bool {
    ext == "mp3"@ || ext == "wav"@ || ext == "ogg"@
}

/// The message refusing extension `ext`.
pub open spec fn unsupported_message(ext: Seq<char>) -> Seq<char> {
    "Unsupported format '"@ + ext + "'. Use mp3, wav, or ogg."@
}

/// Checks the extension of a file to import; gives it back lowercased.
pub fn check_import_extension(src_path: &str) -> (r: Result<String, String>)
    ensures
        r is Ok <==> allowed_ext(import_ext(src_path@)),
        r matches Ok(e) ==> e@ == import_ext(src_path@),
        r matches Err(m) ==> m@ == unsupported_message(import_ext(src_path@)),
{
    let ext = match extension(src_path) {
        Some(e) => lowercase(e.as_str()),
        None => String::new(),
    };
    if str_eq(ext.as_str(), "mp3") || str_eq(ext.as_str(), "wav") || str_eq(ext.as_str(), "ogg") {
        Ok(ext)
    } else {
        Err(String::from_str("Unsupported format '").concat(ext.as_str()).concat("'. Use mp3, wav, or ogg."))
    }
}

/// A size in tenths of a MiB, rounded to nearest, ties to even.
pub open spec fn tenths_of_mib(size: nat) -> nat {
    let q = (size * 10) / 1048576;
    let rem = (size * 10) % 1048576;
    if rem > 524288 || (rem == 524288 && q % 2 == 1) {
        q + 1
    } else {
        q
    }
}

/// The message refusing a file of `size` bytes.
pub open spec fn too_large_message(size: nat) -> Seq<char> {
    "File too large ("@ + decimal(tenths_of_mib(size) / 10) + "."@ + decimal(tenths_of_mib(size) % 10)
        + "MB). Maximum is 5MB."@
}

/// Checks the size of a file to import.
pub fn check_import_size(size: u64) -> (r: Result<(), String>)
    ensures
        r is Ok <==> size <= MAX_FILE_SIZE,
        r matches Err(m) ==> m@ == too_large_message(size as nat),
{
    if size <= MAX_FILE_SIZE {
        return Ok(());
    }
    let scaled: u128 = (size as u128) * 10;
    let q: u128 = scaled / 1048576;
    let rem: u128 = scaled % 1048576;
    let t: u128 = if rem > 524288 || (rem == 524288 && q % 2 == 1) { q + 1 } else { q };
    assert(t == tenths_of_mib(size as nat));
    let mut m = String::from_str("File too large (");
    push_decimal(&mut m, (t / 10) as u64);
    push_char(&mut m, '.');
    push_decimal(&mut m, (t % 10) as u64);
    let m = m.concat("MB). Maximum is 5MB.");
    proof {
        reveal_strlit(".");
    }
    assert(m@ =~= too_large_message(size as nat));
    Err(m)
}

/// A slot identifier made safe for a file name: each `:` becomes `-`.
pub open spec fn file_safe(slot: Seq<char>) -> Seq<char> {
    slot.map_values(|c: char| if c == ':' { '-' } else { c })
}

/// The file name, within the pack's `sounds` directory, that a sound
/// imported into `slot` with extension `ext` gets.
pub open spec fn import_file_name(slot: Seq<char>, ext: Seq<char>) -> Seq<char> {
    "keydown-"@ + file_safe(slot) + "."@ + ext
}

/// The name recorded as the original of an imported file: its own file
/// name, or the name it was stored under if it has none.
pub open spec fn import_original_name(src_path: Seq<char>, slot: Seq<char>, ext: Seq<char>) -> Seq<char> {
    match file_name_of(src_path) {
        Some(f) => f,
        None => import_file_name(slot, ext),
    }
}

/// The file operations of an import, with paths relative to the pack
/// directory: delete `old_path` if it names a file, then copy the source
/// file to `dest_path`.
pub struct ImportPlan {
    pub old_path: Option<String>,
    pub dest_path: String,
}

fn file_safe_slot(slot: &str) -> (r: String)
    ensures
        r@ == file_safe(slot@),
{
    let n = slot.unicode_len();
    let mut out = String::new();
    let mut i: usize = 0;
    while i < n
        invariant
            n == slot@.len(),
            i <= n,
            out@ == file_safe(slot@.take(i as int)),
        decreases n - i,
    {
        let c = slot.get_char(i);
        if c == ':' {
            push_char(&mut out, '-');
        } else {
            push_char(&mut out, c);
        }
        assert(file_safe(slot@.take(i + 1)) =~= file_safe(slot@.take(i as int)).push(if c == ':' { '-' } else { c }));
        i = i + 1;
    }
    assert(slot@.take(n as int) =~= slot@);
    out
}

/// Imports the file at `src_path` (with checked extension `ext`) into
/// `slot` of `pack`: the slot gets the stored file's path and the file's
/// name is recorded as the slot's original name. Returns the file
/// operations to carry out.
pub fn plan_import(pack: &mut SoundPack, slot: &str, src_path: &str, ext: &str) -> (r: ImportPlan)
    ensures
        opt_view(r.old_path) == slot_path(*old(pack), slot@),
        r.dest_path@ == "sounds/"@ + import_file_name(slot@, ext@),
        slot_applied(*old(pack), *final(pack), slot@, Some(r.dest_path)),
        final(pack).original_names@ == old(pack).original_names@.insert(slot@, final(pack).original_names@[slot@]),
        final(pack).original_names@[slot@]@ == import_original_name(src_path@, slot@, ext@),
{
    let old_path = get_slot_path(pack, slot);
    let dest_name = String::from_str("keydown-").concat(file_safe_slot(slot).as_str()).concat(".").concat(ext);
    let dest_path = String::from_str("sounds/").concat(dest_name.as_str());
    let stored = dest_path.clone();
    apply_slot_to_pack(pack, slot, Some(stored));
    let original = match file_name(src_path) {
        Some(f) => f,
        None => dest_name,
    };
    pack.original_names.insert(String::from_str(slot), original);
    ImportPlan { old_path, dest_path }
}

/// Removes the sound of `slot` from `pack`. The `default` slot goes back
/// to the silent placeholder, which the caller regenerates; any other slot
/// loses its target. The slot's original name is forgotten either way.
/// Returns the slot's former path, whose file the caller deletes.
pub fn remove_slot(pack: &mut SoundPack, slot: &str) -> (r: Option<String>)
    ensures
        opt_view(r) == slot_path(*old(pack), slot@),
        slot@ == "default"@ ==> final(pack).defaults.keydown@ == silence_path() && slot_applied(
            *old(pack),
            *final(pack),
            slot@,
            Some(final(pack).defaults.keydown),
        ),
        slot@ != "default"@ ==> slot_applied(*old(pack), *final(pack), slot@, None),
        final(pack).original_names@ == old(pack).original_names@.remove(slot@),
{
    let old_path = get_slot_path(pack, slot);
    if str_eq(slot, "default") {
        apply_slot_to_pack(pack, slot, Some(String::from_str("sounds/keydown.wav")));
    } else {
        apply_slot_to_pack(pack, slot, None);
    }
    pack.original_names.remove(slot);
    old_path
}

/// The little-endian bytes of a 32-bit value.
pub open spec fn le32(x: int) -> Seq<u8> {
    seq![(x % 256) as u8, ((x / 256) % 256) as u8, ((x / 65536) % 256) as u8, (x / 16777216) as u8]
}

/// The little-endian bytes of a 16-bit value.
pub open spec fn le16(x: int) -> Seq<u8> {
    seq![(x % 256) as u8, (x / 256) as u8]
}

/// Samples per second of the silent placeholder.
pub const SILENCE_RATE: u32 = 44100;

/// Samples in the silent placeholder (10 ms).
pub const SILENCE_SAMPLES: u32 = 441;

/// The silent placeholder: a mono 16-bit PCM WAV file of 10 ms of zeros.
pub open spec fn silence_wav_bytes() -> Seq<u8> {
    let data_size = SILENCE_SAMPLES * 2;
    "RIFF"@.map_values(|c: char| c as u8) + le32(36 + data_size) + "WAVE"@.map_values(|c: char| c as u8)
        + "fmt "@.map_values(|c: char| c as u8) + le32(16) + le16(1) + le16(1) + le32(SILENCE_RATE as int)
        + le32(SILENCE_RATE * 2) + le16(2) + le16(16) + "data"@.map_values(|c: char| c as u8) + le32(data_size)
        + Seq::new(data_size as nat, |i: int| 0u8)
}

fn push_le32(v: &mut Vec<u8>, x: u32)
    ensures
        final(v)@ == old(v)@ + le32(x as int),
{
    v.push((x % 256) as u8);
    v.push(((x / 256) % 256) as u8);
    v.push(((x / 65536) % 256) as u8);
    v.push((x / 16777216) as u8);
    assert(final(v)@ =~= old(v)@ + le32(x as int));
}

fn push_le16(v: &mut Vec<u8>, x: u16)
    ensures
        final(v)@ == old(v)@ + le16(x as int),
{
    v.push((x % 256) as u8);
    v.push((x / 256) as u8);
    assert(final(v)@ =~= old(v)@ + le16(x as int));
}

fn push_tag(v: &mut Vec<u8>, a: u8, b: u8, c: u8, d: u8)
    ensures
        final(v)@ == old(v)@ + seq![a, b, c, d],
{
    v.push(a);
    v.push(b);
    v.push(c);
    v.push(d);
    assert(final(v)@ =~= old(v)@ + seq![a, b, c, d]);
}

/// The bytes of the silent placeholder sound.
pub fn silence_wav() -> (r: Vec<u8>)
    ensures
        r@ == silence_wav_bytes(),
        r@.len() == 926,
{
    let data_size: u32 = SILENCE_SAMPLES * 2;
    let mut buf: Vec<u8> = Vec::new();
    push_tag(&mut buf, 82, 73, 70, 70);
    push_le32(&mut buf, 36 + data_size);
    push_tag(&mut buf, 87, 65, 86, 69);
    push_tag(&mut buf, 102, 109, 116, 32);
    push_le32(&mut buf, 16);
    push_le16(&mut buf, 1);
    push_le16(&mut buf, 1);
    push_le32(&mut buf, SILENCE_RATE);
    push_le32(&mut buf, SILENCE_RATE * 2);
    push_le16(&mut buf, 2);
    push_le16(&mut buf, 16);
    push_tag(&mut buf, 100, 97, 116, 97);
    push_le32(&mut buf, data_size);
    let ghost header = buf@;
    let mut i: u32 = 0;
    while i < data_size
        invariant
            data_size == SILENCE_SAMPLES * 2,
            i <= data_size,
            buf@ == header + Seq::new(i as nat, |k: int| 0u8),
        decreases data_size - i,
    {
        buf.push(0);
        assert(buf@ =~= header + Seq::new((i + 1) as nat, |k: int| 0u8));
        i = i + 1;
    }
    proof {
        reveal_strlit("RIFF");
        reveal_strlit("WAVE");
        reveal_strlit("fmt ");
        reveal_strlit("data");
        assert("RIFF"@.map_values(|c: char| c as u8) =~= seq![82u8, 73, 70, 70]);
        assert("WAVE"@.map_values(|c: char| c as u8) =~= seq![87u8, 65, 86, 69]);
        assert("fmt "@.map_values(|c: char| c as u8) =~= seq![102u8, 109, 116, 32]);
        assert("data"@.map_values(|c: char| c as u8) =~= seq![100u8, 97, 116, 97]);
    }
    assert(buf@ =~= silence_wav_bytes());
    buf
}

} // verus!
