//! The playback engine's state and decisions: which pack is active, which
//! of its sounds were decoded, master volume, the on/off switch, and the
//! per-key repeat cooldown. Decoding and audio output are the caller's:
//! `play_key` says what to play and at what amplitude.
use vstd::prelude::*;
use crate::paths::{join_path, joined, opt_view};
use crate::sound_pack::{CategoryOverride, KeySound, SoundPack, FULL_VOLUME};
use crate::str_map::{strictly_sorted, StrMap};

verus! {

/// Minimum interval between two accepted plays of one key, in
/// milliseconds; it keeps a held key from buzzing.
pub const KEY_REPEAT_COOLDOWN_MS: u64 = 80;

/// A sound to play: the absolute path of a decoded sound and its linear
/// amplitude in millionths (master volume times key volume).
pub struct PlayRequest {
    pub path: String,
    pub amplitude: u64,
}

pub struct SoundEngine {
    sounds: StrMap<bool>,
    active_pack: Option<SoundPack>,
    volume: u32,
    enabled: bool,
    last_play: StrMap<u64>,
}

/// `v` clamped into `[lo, hi]`.
pub open spec fn clamp(v: int, lo: int, hi: int) -> int {
    if v < lo {
        lo
    } else if v > hi {
        hi
    } else {
        v
    }
}

/// Whether a relative path is one of the two a key override sets.
pub open spec fn key_sound_has(ks: KeySound, rel: Seq<char>) -> bool {
    opt_view(ks.keydown) == Some(rel) || opt_view(ks.keyup) == Some(rel)
}

/// Whether a relative path is one of the two a category override sets.
pub open spec fn category_has(c: CategoryOverride, rel: Seq<char>) -> bool {
    opt_view(c.keydown) == Some(rel) || opt_view(c.keyup) == Some(rel)
}

/// Whether a pack's defaults use the relative path `rel`.
pub open spec fn defaults_have(pack: SoundPack, rel: Seq<char>) -> bool {
    rel == pack.defaults.keydown@ || opt_view(pack.defaults.keyup) == Some(rel)
}

/// Whether a pack uses the relative path `rel` anywhere: in its defaults,
/// or in a key or category override, for key-down or key-up.
pub open spec fn pack_uses(pack: SoundPack, rel: Seq<char>) -> bool {
    ||| defaults_have(pack, rel)
    ||| exists|k: Seq<char>| #[trigger] pack.key_overrides@.contains_key(k) && key_sound_has(pack.key_overrides@[k], rel)
    ||| exists|c: Seq<char>| #[trigger] pack.category_overrides@.contains_key(c) && category_has(pack.category_overrides@[c], rel)
}

/// Whether `p` is the absolute path of a sound that `pack` uses.
pub open spec fn pack_sound(pack: SoundPack, p: Seq<char>) -> bool {
    exists|rel: Seq<char>| #[trigger] pack_uses(pack, rel) && p == joined(pack.base_path@, rel)
}

fn add_path(acc: &mut StrMap<bool>, base: &str, rel: &Option<String>)
    ensures
        forall|p: Seq<char>| #[trigger] final(acc)@.contains_key(p) <==> (old(acc)@.contains_key(p) || (
            rel is Some && p == joined(base@, rel->0@))),
{
    if let Some(r) = rel {
        acc.insert(join_path(base, r.as_str()), true);
    }
}

/// The absolute paths of all the sounds a pack uses, each once, sorted:
/// what has to be decoded before the pack can become active.
pub fn sound_paths(pack: &SoundPack) -> (r: Vec<String>)
    ensures
        forall|p: Seq<char>| (exists|i: int| 0 <= i < r@.len() && #[trigger] r@[i]@ == p) <==> pack_sound(*pack, p),
        strictly_sorted(r@.map_values(|s: String| s@)),
{
    let base = pack.base_path.as_str();
    let mut acc: StrMap<bool> = StrMap::new();
    acc.insert(join_path(base, pack.defaults.keydown.as_str()), true);
    add_path(&mut acc, base, &pack.defaults.keyup);
    let ghost kmap = pack.key_overrides@;
    let ghost cmap = pack.category_overrides@;
    let n = pack.key_overrides.len();
    let ghost keys = pack.key_overrides.keys();
    let mut i: usize = 0;
    while i < n
        invariant
            n == keys.len(),
            keys == pack.key_overrides.keys(),
            kmap == pack.key_overrides@,
            base@ == pack.base_path@,
            forall|b: int| 0 <= b < n ==> kmap.contains_key(#[trigger] keys[b]),
            forall|k: Seq<char>| #[trigger] kmap.contains_key(k) ==> keys.contains(k),
            i <= n,
            forall|p: Seq<char>| #[trigger] acc@.contains_key(p) <==> exists|rel: Seq<char>| #[trigger] joined(base@, rel) == p && (
                defaults_have(*pack, rel) || exists|j: int| 0 <= j < i && key_sound_has(kmap[#[trigger] keys[j]], rel)),
        decreases n - i,
    {
        let ks = pack.key_overrides.value_at(i);
        let ghost before = acc@;
        add_path(&mut acc, base, &ks.keydown);
        add_path(&mut acc, base, &ks.keyup);
        assert forall|p: Seq<char>| #[trigger] acc@.contains_key(p) <==> exists|rel: Seq<char>| #[trigger] joined(base@, rel) == p && (
            defaults_have(*pack, rel) || exists|j: int| 0 <= j < i + 1 && key_sound_has(kmap[#[trigger] keys[j]], rel)) by {
            if acc@.contains_key(p) && !before.contains_key(p) {
                let rel = if ks.keydown is Some && p == joined(base@, ks.keydown->0@) { ks.keydown->0@ } else { ks.keyup->0@ };
                assert(key_sound_has(kmap[keys[i as int]], rel));
                assert(joined(base@, rel) == p);
            }
            if exists|rel: Seq<char>| #[trigger] joined(base@, rel) == p && (defaults_have(*pack, rel) || exists|j: int| 0 <= j < i + 1 && key_sound_has(kmap[#[trigger] keys[j]], rel)) {
                let rel = choose|rel: Seq<char>| #[trigger] joined(base@, rel) == p && (defaults_have(*pack, rel) || exists|j: int| 0 <= j < i + 1 && key_sound_has(kmap[#[trigger] keys[j]], rel));
                if !defaults_have(*pack, rel) {
                    let j = choose|j: int| 0 <= j < i + 1 && key_sound_has(kmap[#[trigger] keys[j]], rel);
                    if j < i {
                        assert(before.contains_key(p));
                    }
                }
            }
        }
        i = i + 1;
    }
    let m = pack.category_overrides.len();
    let ghost cats = pack.category_overrides.keys();
    let mut c: usize = 0;
    while c < m
        invariant
            m == cats.len(),
            cats == pack.category_overrides.keys(),
            cmap == pack.category_overrides@,
            kmap == pack.key_overrides@,
            base@ == pack.base_path@,
            forall|b: int| 0 <= b < m ==> cmap.contains_key(#[trigger] cats[b]),
            forall|k: Seq<char>| #[trigger] cmap.contains_key(k) ==> cats.contains(k),
            forall|b: int| 0 <= b < n ==> kmap.contains_key(#[trigger] keys[b]),
            forall|k: Seq<char>| #[trigger] kmap.contains_key(k) ==> keys.contains(k),
            n == keys.len(),
            c <= m,
            forall|p: Seq<char>| #[trigger] acc@.contains_key(p) <==> exists|rel: Seq<char>| #[trigger] joined(base@, rel) == p && (
                defaults_have(*pack, rel) || (exists|j: int| 0 <= j < n && key_sound_has(kmap[#[trigger] keys[j]], rel))
                || exists|j: int| 0 <= j < c && category_has(cmap[#[trigger] cats[j]], rel)),
        decreases m - c,
    {
        let cat = pack.category_overrides.value_at(c);
        let ghost before = acc@;
        add_path(&mut acc, base, &cat.keydown);
        add_path(&mut acc, base, &cat.keyup);
        assert forall|p: Seq<char>| #[trigger] acc@.contains_key(p) <==> exists|rel: Seq<char>| #[trigger] joined(base@, rel) == p && (
            defaults_have(*pack, rel) || (exists|j: int| 0 <= j < n && key_sound_has(kmap[#[trigger] keys[j]], rel))
            || exists|j: int| 0 <= j < c + 1 && category_has(cmap[#[trigger] cats[j]], rel)) by {
            if acc@.contains_key(p) && !before.contains_key(p) {
                let rel = if cat.keydown is Some && p == joined(base@, cat.keydown->0@) { cat.keydown->0@ } else { cat.keyup->0@ };
                assert(category_has(cmap[cats[c as int]], rel));
                assert(joined(base@, rel) == p);
            }
            if exists|rel: Seq<char>| #[trigger] joined(base@, rel) == p && (defaults_have(*pack, rel) || (exists|j: int| 0 <= j < n && key_sound_has(kmap[#[trigger] keys[j]], rel)) || exists|j: int| 0 <= j < c + 1 && category_has(cmap[#[trigger] cats[j]], rel)) {
                let rel = choose|rel: Seq<char>| #[trigger] joined(base@, rel) == p && (defaults_have(*pack, rel) || (exists|j: int| 0 <= j < n && key_sound_has(kmap[#[trigger] keys[j]], rel)) || exists|j: int| 0 <= j < c + 1 && category_has(cmap[#[trigger] cats[j]], rel));
                if !defaults_have(*pack, rel) && !(exists|j: int| 0 <= j < n && key_sound_has(kmap[#[trigger] keys[j]], rel)) {
                    let j = choose|j: int| 0 <= j < c + 1 && category_has(cmap[#[trigger] cats[j]], rel);
                    if j < c {
                        assert(before.contains_key(p));
                    }
                }
            }
        }
        c = c + 1;
    }
    assert forall|p: Seq<char>| #[trigger] acc@.contains_key(p) <==> pack_sound(*pack, p) by {
        if acc@.contains_key(p) {
            let rel = choose|rel: Seq<char>| #[trigger] joined(base@, rel) == p && (
                defaults_have(*pack, rel) || (exists|j: int| 0 <= j < n && key_sound_has(kmap[#[trigger] keys[j]], rel))
                || exists|j: int| 0 <= j < m && category_has(cmap[#[trigger] cats[j]], rel));
            assert(pack_uses(*pack, rel));
        }
        if pack_sound(*pack, p) {
            let rel = choose|rel: Seq<char>| #[trigger] pack_uses(*pack, rel) && p == joined(pack.base_path@, rel);
            if !defaults_have(*pack, rel) {
                if exists|k: Seq<char>| #[trigger] kmap.contains_key(k) && key_sound_has(kmap[k], rel) {
                    let k = choose|k: Seq<char>| #[trigger] kmap.contains_key(k) && key_sound_has(kmap[k], rel);
                    let j = choose|j: int| 0 <= j < keys.len() && keys[j] == k;
                    assert(key_sound_has(kmap[keys[j]], rel));
                } else {
                    let k = choose|k: Seq<char>| #[trigger] cmap.contains_key(k) && category_has(cmap[k], rel);
                    let j = choose|j: int| 0 <= j < cats.len() && cats[j] == k;
                    assert(category_has(cmap[cats[j]], rel));
                }
            }
            assert(joined(base@, rel) == p);
        }
    }
    let total = acc.len();
    let mut r: Vec<String> = Vec::new();
    let mut t: usize = 0;
    while t < total
        invariant
            total == acc.keys().len(),
            t <= total,
            r@.len() == t,
            forall|a: int| 0 <= a < t ==> #[trigger] r@[a]@ == acc.keys()[a],
        decreases total - t,
    {
        r.push(acc.key_at(t).clone());
        t = t + 1;
    }
    assert(r@.map_values(|s: String| s@) =~= acc.keys());
    assert forall|p: Seq<char>| (exists|i: int| 0 <= i < r@.len() && #[trigger] r@[i]@ == p) <==> pack_sound(*pack, p) by {
        if exists|i: int| 0 <= i < r@.len() && #[trigger] r@[i]@ == p {
            let i = choose|i: int| 0 <= i < r@.len() && #[trigger] r@[i]@ == p;
            assert(acc@.contains_key(acc.keys()[i]));
        }
        if pack_sound(*pack, p) {
            assert(acc@.contains_key(p));
            assert(acc.keys().contains(p));
            let i = choose|i: int| 0 <= i < acc.keys().len() && acc.keys()[i] == p;
            assert(r@[i]@ == p);
        }
    }
    r
}

impl SoundEngine {
    /// The absolute paths of the sounds that were decoded for the active pack.
    pub closed spec fn loaded(&self) -> Set<Seq<char>> {
        self.sounds@.dom()
    }

    /// The active pack, if any.
    pub closed spec fn active(&self) -> Option<SoundPack> {
        self.active_pack
    }

    /// The master volume, in thousandths.
    pub closed spec fn master(&self) -> u32 {
        self.volume
    }

    pub closed spec fn on(&self) -> bool {
        self.enabled
    }

    /// When each key was last played, in milliseconds.
    pub closed spec fn played(&self) -> Map<Seq<char>, u64> {
        self.last_play@
    }

    /// Whether `key` was played less than the cooldown before `now`.
    pub open spec fn cooling(&self, key: Seq<char>, now: u64) -> bool {
        self.played().contains_key(key) && now < self.played()[key] + KEY_REPEAT_COOLDOWN_MS
    }

    /// The absolute path that a key-down of `key` plays in the active pack.
    pub open spec fn sound_for(&self, key: Seq<char>) -> Seq<char> {
        joined(self.active()->0.base_path@, self.active()->0.keydown_path(key))
    }

    /// Whether `b` is `a` with the switch flipped and nothing else changed.
    pub open spec fn toggled(a: SoundEngine, b: SoundEngine) -> bool {
        &&& b.on() == !a.on()
        &&& b.master() == a.master()
        &&& b.active() == a.active()
        &&& b.loaded() == a.loaded()
        &&& b.played() == a.played()
    }

    /// A new engine: no pack, full volume, enabled.
    pub fn new() -> (r: SoundEngine)
        ensures
            r.active() is None,
            r.loaded().is_empty(),
            r.master() == FULL_VOLUME,
            r.on(),
            r.played().is_empty(),
    {
        SoundEngine {
            sounds: StrMap::new(),
            active_pack: None,
            volume: FULL_VOLUME,
            enabled: true,
            last_play: StrMap::new(),
        }
    }

    /// Makes `pack` the active pack, with `decoded` the absolute paths of
    /// its sounds that were decoded (a sound missing or failing to decode
    /// is left out, and its keys stay silent). The cooldowns restart.
    pub fn load_pack(&mut self, pack: SoundPack, decoded: Vec<String>)
        ensures
            final(self).active() == Some(pack),
            final(self).loaded() == decoded@.map_values(|s: String| s@).to_set(),
            final(self).played().is_empty(),
            final(self).master() == old(self).master(),
            final(self).on() == old(self).on(),
    {
        let mut sounds: StrMap<bool> = StrMap::new();
        let mut i: usize = 0;
        while i < decoded.len()
            invariant
                i <= decoded@.len(),
                sounds@.dom() == decoded@.take(i as int).map_values(|s: String| s@).to_set(),
            decreases decoded@.len() - i,
        {
            let ghost before = decoded@.take(i as int).map_values(|s: String| s@);
            assert(decoded@.take(i + 1).map_values(|s: String| s@) =~= before.push(decoded@[i as int]@));
            sounds.insert(decoded[i].clone(), true);
            proof {
                Seq::<Seq<char>>::lemma_to_set_insert_commutes(before, decoded@[i as int]@);
            }
            assert(before.push(decoded@[i as int]@) =~= before + seq![decoded@[i as int]@]);
            assert(sounds@.dom() =~= before.push(decoded@[i as int]@).to_set());
            i = i + 1;
        }
        assert(decoded@.take(decoded@.len() as int) =~= decoded@);
        self.sounds = sounds;
        self.last_play = StrMap::new();
        self.active_pack = Some(pack);
    }

    /// Handles a key-down of `key` at `now_ms`. Nothing is played, and
    /// nothing changes, when the engine is off, when the key is cooling
    /// down, when no pack is active, or when the key's sound was not
    /// decoded. Otherwise the key's sound is played at master volume times
    /// the key's volume, and the key's cooldown starts at `now_ms`.
    pub fn play_key(&mut self, key_name: &str, now_ms: u64) -> (r: Option<PlayRequest>)
        ensures
            r is Some <==> (old(self).on() && !old(self).cooling(key_name@, now_ms) && old(self).active() is Some
                && old(self).loaded().contains(old(self).sound_for(key_name@))),
            r matches Some(req) ==> {
                &&& req.path@ == old(self).sound_for(key_name@)
                &&& req.amplitude == old(self).master() as int * old(self).active()->0.key_volume(key_name@) as int
                &&& final(self).played() == old(self).played().insert(key_name@, now_ms)
            },
            r is None ==> final(self).played() == old(self).played(),
            final(self).active() == old(self).active(),
            final(self).loaded() == old(self).loaded(),
            final(self).master() == old(self).master(),
            final(self).on() == old(self).on(),
    {
        if !self.enabled {
            return None;
        }
        if self.is_key_in_cooldown(key_name, now_ms) {
            return None;
        }
        let (path, key_volume) = match &self.active_pack {
            Some(pack) => {
                let path = match pack.resolve_keydown(key_name) {
                    Some(p) => p,
                    None => return None,
                };
                (path, pack.resolve_volume(key_name))
            },
            None => return None,
        };
        if !self.sounds.contains_key(path.as_str()) {
            return None;
        }
        let a = self.volume as u64;
        let b = key_volume as u64;
        assert(a * b <= 0xffff_ffffu64 * 0xffff_ffffu64) by (nonlinear_arith)
            requires
                a <= 0xffff_ffffu64,
                b <= 0xffff_ffffu64,
        ;
        let amplitude = a * b;
        self.last_play.insert(String::from_str(key_name), now_ms);
        Some(PlayRequest { path, amplitude })
    }

    /// Whether a key-down of `key_name` at `now_ms` would be suppressed as
    /// a repeat.
    pub fn is_key_in_cooldown(&self, key_name: &str, now_ms: u64) -> (r: bool)
        ensures
            r == self.cooling(key_name@, now_ms),
    {
        match self.last_play.get(key_name) {
            Some(last) => (now_ms as u128) < (*last as u128) + (KEY_REPEAT_COOLDOWN_MS as u128),
            None => false,
        }
    }

    /// Records that `key_name` was played at `at_ms`.
    pub fn record_key_play(&mut self, key_name: &str, at_ms: u64)
        ensures
            final(self).played() == old(self).played().insert(key_name@, at_ms),
            final(self).active() == old(self).active(),
            final(self).loaded() == old(self).loaded(),
            final(self).master() == old(self).master(),
            final(self).on() == old(self).on(),
    {
        self.last_play.insert(String::from_str(key_name), at_ms);
    }

    /// Sets the master volume, in thousandths, clamped into `[0, 1000]`.
    pub fn set_volume(&mut self, volume: i64)
        ensures
            final(self).master() == clamp(volume as int, 0, FULL_VOLUME as int),
            final(self).active() == old(self).active(),
            final(self).loaded() == old(self).loaded(),
            final(self).played() == old(self).played(),
            final(self).on() == old(self).on(),
    {
        self.volume = if volume < 0 {
            0
        } else if volume > FULL_VOLUME as i64 {
            FULL_VOLUME
        } else {
            volume as u32
        };
    }

    /// The master volume, in thousandths.
    pub fn get_volume(&self) -> (r: u32)
        ensures
            r == self.master(),
    {
        self.volume
    }

    pub fn set_enabled(&mut self, enabled: bool)
        ensures
            final(self).on() == enabled,
            final(self).master() == old(self).master(),
            final(self).active() == old(self).active(),
            final(self).loaded() == old(self).loaded(),
            final(self).played() == old(self).played(),
    {
        self.enabled = enabled;
    }

    pub fn is_enabled(&self) -> (r: bool)
        ensures
            r == self.on(),
    {
        self.enabled
    }

    /// Flips the switch; returns the new state.
    pub fn toggle(&mut self) -> (r: bool)
        ensures
            Self::toggled(*old(self), *final(self)),
            r == final(self).on(),
    {
        self.enabled = !self.enabled;
        self.enabled
    }

    /// The id of the active pack, if any.
    pub fn active_pack_id(&self) -> (r: Option<String>)
        ensures
            r == (match self.active() {
                Some(p) => Some(p.id),
                None => None,
            }),
    {
        match &self.active_pack {
            Some(p) => Some(p.id.clone()),
            None => None,
        }
    }
}

/// Toggling twice restores the on/off state (and changes nothing else).
pub proof fn lemma_toggle_twice(e0: SoundEngine, e1: SoundEngine, e2: SoundEngine)
    requires
        SoundEngine::toggled(e0, e1),
        SoundEngine::toggled(e1, e2),
    ensures
        e2.on() == e0.on(),
        e2.master() == e0.master(),
        e2.active() == e0.active(),
        e2.loaded() == e0.loaded(),
        e2.played() == e0.played(),
{
}

} // verus!
