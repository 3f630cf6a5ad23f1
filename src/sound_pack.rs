//! The sound pack model: defaults, per-key and per-category overrides, and
//! how a key resolves to a sound and a volume.
use vstd::prelude::*;
use crate::paths::{join_path, joined, opt_view};
use crate::str_map::StrMap;
use crate::text::str_eq;

verus! {

/// Volumes are held in thousandths: this is full volume (1.0).
pub const FULL_VOLUME: u32 = 1000;

/// The fallback sounds of a pack. `keydown` is always present.
pub struct SoundDefaults {
    pub keydown: String,
    pub keyup: Option<String>,
    /// In thousandths of full volume.
    pub volume: u32,
}

/// The sounds of one key; an absent field inherits.
pub struct KeySound {
    pub keydown: Option<String>,
    pub keyup: Option<String>,
    /// In thousandths of full volume.
    pub volume: Option<u32>,
}

/// Sounds shared by a named group of keys.
pub struct CategoryOverride {
    pub keys: Vec<String>,
    pub keydown: Option<String>,
    pub keyup: Option<String>,
    /// In thousandths of full volume.
    pub volume: Option<u32>,
}

/// A sound pack. Sound paths are relative to `base_path`.
pub struct SoundPack {
    pub id: String,
    pub name: String,
    pub author: String,
    pub version: String,
    pub description: String,
    /// `Some("user")` for packs a user created; `None` for bundled ones.
    pub source: Option<String>,
    pub defaults: SoundDefaults,
    pub key_overrides: StrMap<KeySound>,
    pub category_overrides: StrMap<CategoryOverride>,
    /// Slot identifier to the file name a sound was imported from.
    pub original_names: StrMap<String>,
    pub base_path: String,
}

/// What a pack picker shows of a pack.
pub struct SoundPackInfo {
    pub id: String,
    pub name: String,
    pub author: String,
    pub description: String,
    pub source: Option<String>,
}

/// Whether `key` is among the keys of a category.
pub open spec fn lists_key(cat: CategoryOverride, key: Seq<char>) -> bool {
    exists|i: int| 0 <= i < cat.keys@.len() && #[trigger] cat.keys@[i]@ == key
}

/// The keydown path of the first category, from position `i` on in name
/// order, that lists `key` and sets a keydown path.
pub open spec fn category_keydown_from(cats: StrMap<CategoryOverride>, key: Seq<char>, i: int) -> Option<Seq<char>>
    decreases cats.keys().len() - i,
{
    if 0 <= i < cats.keys().len() {
        let c = cats@[cats.keys()[i]];
        if lists_key(c, key) && c.keydown is Some {
            opt_view(c.keydown)
        } else {
            category_keydown_from(cats, key, i + 1)
        }
    } else {
        None
    }
}

/// The volume of the first category, from position `i` on in name order,
/// that lists `key` and sets a volume.
pub open spec fn category_volume_from(cats: StrMap<CategoryOverride>, key: Seq<char>, i: int) -> Option<u32>
    decreases cats.keys().len() - i,
{
    if 0 <= i < cats.keys().len() {
        let c = cats@[cats.keys()[i]];
        if lists_key(c, key) && c.volume is Some {
            c.volume
        } else {
            category_volume_from(cats, key, i + 1)
        }
    } else {
        None
    }
}

impl SoundPack {
    /// The keydown path of `key` relative to the pack: the key's own,
    /// else that of a category listing it, else the default.
    pub open spec fn keydown_path(self, key: Seq<char>) -> Seq<char> {
        if self.key_overrides@.contains_key(key) && self.key_overrides@[key].keydown is Some {
            self.key_overrides@[key].keydown->0@
        } else if category_keydown_from(self.category_overrides, key, 0) is Some {
            category_keydown_from(self.category_overrides, key, 0)->0
        } else {
            self.defaults.keydown@
        }
    }

    /// The volume of `key`, with the same precedence as its path.
    pub open spec fn key_volume(self, key: Seq<char>) -> u32 {
        if self.key_overrides@.contains_key(key) && self.key_overrides@[key].volume is Some {
            self.key_overrides@[key].volume->0
        } else if category_volume_from(self.category_overrides, key, 0) is Some {
            category_volume_from(self.category_overrides, key, 0)->0
        } else {
            self.defaults.volume
        }
    }

    /// The absolute path of the sound that a key-down of `key` plays.
    /// There is always one: the default is the last fallback.
    pub fn resolve_keydown(&self, key_name: &str) -> (r: Option<String>)
        ensures
            r is Some,
            r->0@ == joined(self.base_path@, self.keydown_path(key_name@)),
    {
        if let Some(ks) = self.key_overrides.get(key_name) {
            if let Some(p) = &ks.keydown {
                return Some(join_path(self.base_path.as_str(), p.as_str()));
            }
        }
        let n = self.category_overrides.len();
        let mut i: usize = 0;
        while i < n
            invariant
                n == self.category_overrides.keys().len(),
                i <= n,
                category_keydown_from(self.category_overrides, key_name@, i as int)
                    == category_keydown_from(self.category_overrides, key_name@, 0),
                !(self.key_overrides@.contains_key(key_name@) && self.key_overrides@[key_name@].keydown is Some),
            decreases n - i,
        {
            let cat = self.category_overrides.value_at(i);
            if category_lists(cat, key_name) {
                if let Some(p) = &cat.keydown {
                    assert(category_keydown_from(self.category_overrides, key_name@, i as int) == Some(p@));
                    return Some(join_path(self.base_path.as_str(), p.as_str()));
                }
            }
            i = i + 1;
        }
        Some(join_path(self.base_path.as_str(), self.defaults.keydown.as_str()))
    }

    /// The volume, in thousandths, at which `key` plays.
    pub fn resolve_volume(&self, key_name: &str) -> (r: u32)
        ensures
            r == self.key_volume(key_name@),
    {
        if let Some(ks) = self.key_overrides.get(key_name) {
            if let Some(v) = ks.volume {
                return v;
            }
        }
        let n = self.category_overrides.len();
        let mut i: usize = 0;
        while i < n
            invariant
                n == self.category_overrides.keys().len(),
                i <= n,
                category_volume_from(self.category_overrides, key_name@, i as int)
                    == category_volume_from(self.category_overrides, key_name@, 0),
                !(self.key_overrides@.contains_key(key_name@) && self.key_overrides@[key_name@].volume is Some),
            decreases n - i,
        {
            let cat = self.category_overrides.value_at(i);
            if category_lists(cat, key_name) {
                if let Some(v) = cat.volume {
                    assert(category_volume_from(self.category_overrides, key_name@, i as int) == Some(v));
                    return v;
                }
            }
            i = i + 1;
        }
        self.defaults.volume
    }

    /// The pack's identity and display fields.
    pub fn info(&self) -> (r: SoundPackInfo)
        ensures
            r.id == self.id,
            r.name == self.name,
            r.author == self.author,
            r.description == self.description,
            r.source == self.source,
    {
        let source = match &self.source {
            Some(s) => Some(s.clone()),
            None => None,
        };
        SoundPackInfo {
            id: self.id.clone(),
            name: self.name.clone(),
            author: self.author.clone(),
            description: self.description.clone(),
            source,
        }
    }
}

/// Whether a category lists `key`.
pub fn category_lists(cat: &CategoryOverride, key: &str) -> (r: bool)
    ensures
        r == lists_key(*cat, key@),
{
    let n = cat.keys.len();
    let mut i: usize = 0;
    while i < n
        invariant
            n == cat.keys@.len(),
            i <= n,
            forall|j: int| 0 <= j < i ==> #[trigger] cat.keys@[j]@ != key@,
        decreases n - i,
    {
        if str_eq(cat.keys[i].as_str(), key) {
            return true;
        }
        i = i + 1;
    }
    false
}

} // verus!
