//! Slots: the fixed set of editable sound assignments of a pack
//! (`default`, `space`, `enter`, `modifier`, `backspace`) and one
//! `key:<identifier>` slot per other key.
use vstd::prelude::*;
use crate::paths::{file_name, file_name_of, opt_view};
use crate::sound_pack::{CategoryOverride, KeySound, SoundPack, FULL_VOLUME};
use crate::str_map::{strictly_sorted, StrMap};
use crate::text::{seq_lt, str_eq};

verus! {

/// Volume, in thousandths, of a freshly created modifier category.
pub const MODIFIER_VOLUME: u32 = 600;

/// Whether a slot identifier has the `key:` form.
pub open spec fn is_key_slot(slot: Seq<char>) -> bool {
    slot.len() >= 4 && slot.take(4) == "key:"@
}

/// The key override a slot addresses, if it addresses one.
pub open spec fn slot_key(slot: Seq<char>) -> Option<Seq<char>> {
    if slot == "space"@ {
        Some("Space"@)
    } else if slot == "enter"@ {
        Some("Return"@)
    } else if is_key_slot(slot) {
        Some(slot.skip(4))
    } else {
        None
    }
}

/// The category override a slot addresses, if it addresses one.
pub open spec fn slot_category(slot: Seq<char>) -> Option<Seq<char>> {
    if slot == "modifier"@ {
        Some("modifiers"@)
    } else if slot == "backspace"@ {
        Some("delete"@)
    } else {
        None
    }
}

/// The keys a newly created category lists.
pub open spec fn fresh_category_keys(name: Seq<char>) -> Seq<Seq<char>> {
    if name == "modifiers"@ {
        seq![
            "ShiftLeft"@, "ShiftRight"@, "ControlLeft"@, "ControlRight"@,
            "Alt"@, "AltGr"@, "MetaLeft"@, "MetaRight"@,
        ]
    } else {
        seq!["Backspace"@, "Delete"@]
    }
}

/// The volume a newly created category has.
pub open spec fn fresh_category_volume(name: Seq<char>) -> Option<u32> {
    if name == "modifiers"@ {
        Some(MODIFIER_VOLUME)
    } else {
        None
    }
}

/// The views of a list of strings.
pub open spec fn names_of(v: Seq<String>) -> Seq<Seq<char>> {
    v.map_values(|s: String| s@)
}

/// A key override after its slot was given the keydown path `p`.
pub open spec fn key_sound_set(prev: Option<KeySound>, p: String) -> KeySound {
    match prev {
        Some(ks) => KeySound { keydown: Some(p), ..ks },
        None => KeySound { keydown: Some(p), keyup: None, volume: Some(FULL_VOLUME) },
    }
}

/// Whether `c` is what category `name` is after its slot was given the
/// keydown path `p`, `prev` being what it was before.
pub open spec fn category_set(prev: Option<CategoryOverride>, name: Seq<char>, p: String, c: CategoryOverride) -> bool {
    &&& c.keydown == Some(p)
    &&& match prev {
        Some(old) => c.keys == old.keys && c.keyup == old.keyup && c.volume == old.volume,
        None => names_of(c.keys@) == fresh_category_keys(name) && c.keyup is None
            && c.volume == fresh_category_volume(name),
    }
}

/// The entry of `k` in a map, if any.
pub open spec fn entry<T>(m: Map<Seq<char>, T>, k: Seq<char>) -> Option<T> {
    if m.contains_key(k) {
        Some(m[k])
    } else {
        None
    }
}

/// The keydown path a slot currently holds, relative to the pack.
pub open spec fn slot_path(pack: SoundPack, slot: Seq<char>) -> Option<Seq<char>> {
    if slot == "default"@ {
        Some(pack.defaults.keydown@)
    } else if slot_key(slot) is Some {
        let k = slot_key(slot)->0;
        if pack.key_overrides@.contains_key(k) {
            opt_view(pack.key_overrides@[k].keydown)
        } else {
            None
        }
    } else if slot_category(slot) is Some {
        let c = slot_category(slot)->0;
        if pack.category_overrides@.contains_key(c) {
            opt_view(pack.category_overrides@[c].keydown)
        } else {
            None
        }
    } else {
        None
    }
}

/// The fixed slot identifiers, in listing order.
pub open spec fn fixed_slots() -> Seq<Seq<char>> {
    seq!["default"@, "space"@, "enter"@, "modifier"@, "backspace"@]
}

/// The fixed slot identifiers are distinct and none has the `key:` form.
pub proof fn lemma_fixed_slots()
    ensures
        forall|i: int, j: int| 0 <= i < j < 5 ==> fixed_slots()[i] != fixed_slots()[j],
        forall|i: int| 0 <= i < 5 ==> !is_key_slot(#[trigger] fixed_slots()[i]),
{
    reveal_strlit("key:");
    reveal_strlit("default");
    reveal_strlit("space");
    reveal_strlit("enter");
    reveal_strlit("modifier");
    reveal_strlit("backspace");
    let f = fixed_slots();
    assert forall|i: int, j: int| 0 <= i < j < 5 implies f[i] != f[j] by {
        assert(f[i][0] != f[j][0]);
    }
    assert forall|i: int| 0 <= i < 5 implies !is_key_slot(#[trigger] f[i]) by {
        if f[i].len() >= 4 {
            assert(f[i].take(4)[0] == f[i][0]);
        }
    }
}

/// The slot identifiers are of one kind each.
pub proof fn lemma_slot_kinds(slot: Seq<char>)
    ensures
        slot == "default"@ ==> slot_key(slot) is None && slot_category(slot) is None,
        slot_category(slot) is Some ==> slot_key(slot) is None && slot != "default"@,
        slot_key(slot) is Some ==> slot != "default"@,
        "enter"@ != "space"@,
        "backspace"@ != "modifier"@,
{
    lemma_fixed_slots();
    let f = fixed_slots();
    assert(f[0] == "default"@ && f[1] == "space"@ && f[2] == "enter"@ && f[3] == "modifier"@ && f[4] == "backspace"@);
    assert(!is_key_slot(f[0]) && !is_key_slot(f[3]) && !is_key_slot(f[4]));
}

/// A slot identifier, parsed.
pub enum Slot {
    Default,
    Space,
    Enter,
    Modifier,
    Backspace,
    Key(String),
}

/// Parses a slot identifier; `None` for one that addresses nothing.
pub fn parse_slot(slot: &str) -> (r: Option<Slot>)
    ensures
        match r {
            Some(Slot::Default) => slot@ == "default"@,
            Some(Slot::Space) => slot@ == "space"@,
            Some(Slot::Enter) => slot@ == "enter"@,
            Some(Slot::Modifier) => slot@ == "modifier"@,
            Some(Slot::Backspace) => slot@ == "backspace"@,
            Some(Slot::Key(k)) => slot@ != "space"@ && slot@ != "enter"@ && is_key_slot(slot@)
                && k@ == slot@.skip(4),
            None => slot@ != "default"@ && slot_key(slot@) is None && slot_category(slot@) is None,
        },
{
    proof {
        lemma_slot_kinds(slot@);
    }
    if str_eq(slot, "default") {
        Some(Slot::Default)
    } else if str_eq(slot, "space") {
        Some(Slot::Space)
    } else if str_eq(slot, "enter") {
        Some(Slot::Enter)
    } else if str_eq(slot, "modifier") {
        Some(Slot::Modifier)
    } else if str_eq(slot, "backspace") {
        Some(Slot::Backspace)
    } else {
        let n = slot.unicode_len();
        if n >= 4 && str_eq(slot.substring_char(0, 4), "key:") {
            assert(slot@.subrange(0, 4) == slot@.take(4));
            let k = slot.substring_char(4, n);
            assert(slot@.subrange(4, n as int) == slot@.skip(4));
            Some(Slot::Key(String::from_str(k)))
        } else {
            None
        }
    }
}

/// The keydown path that `slot` holds in `pack`, relative to the pack.
pub fn get_slot_path(pack: &SoundPack, slot: &str) -> (r: Option<String>)
    ensures
        opt_view(r) == slot_path(*pack, slot@),
{
    proof {
        lemma_slot_kinds(slot@);
    }
    let r = match parse_slot(slot) {
        Some(Slot::Default) => Some(pack.defaults.keydown.clone()),
        Some(Slot::Space) => key_keydown(&pack.key_overrides, "Space"),
        Some(Slot::Enter) => key_keydown(&pack.key_overrides, "Return"),
        Some(Slot::Modifier) => category_keydown(&pack.category_overrides, "modifiers"),
        Some(Slot::Backspace) => category_keydown(&pack.category_overrides, "delete"),
        Some(Slot::Key(k)) => key_keydown(&pack.key_overrides, k.as_str()),
        None => None,
    };
    r
}

fn key_keydown(m: &StrMap<KeySound>, k: &str) -> (r: Option<String>)
    ensures
        opt_view(r) == (if m@.contains_key(k@) { opt_view(m@[k@].keydown) } else { None }),
{
    match m.get(k) {
        Some(ks) => match &ks.keydown {
            Some(p) => Some(p.clone()),
            None => None,
        },
        None => None,
    }
}

fn category_keydown(m: &StrMap<CategoryOverride>, k: &str) -> (r: Option<String>)
    ensures
        opt_view(r) == (if m@.contains_key(k@) { opt_view(m@[k@].keydown) } else { None }),
{
    match m.get(k) {
        Some(c) => match &c.keydown {
            Some(p) => Some(p.clone()),
            None => None,
        },
        None => None,
    }
}

/// Gives key override `k` the keydown path `p`, creating it if absent.
fn set_key_keydown(m: &mut StrMap<KeySound>, k: &str, p: String)
    ensures
        final(m)@ == old(m)@.insert(k@, key_sound_set(entry(old(m)@, k@), p)),
{
    let ks = match m.remove(k) {
        Some(ks) => KeySound { keydown: Some(p), ..ks },
        None => KeySound { keydown: Some(p), keyup: None, volume: Some(FULL_VOLUME) },
    };
    m.insert(String::from_str(k), ks);
    assert(final(m)@ =~= old(m)@.insert(k@, key_sound_set(entry(old(m)@, k@), p)));
}

/// Gives category `name` the keydown path `p`, creating it if absent.
fn set_category_keydown(m: &mut StrMap<CategoryOverride>, name: &str, p: String)
    requires
        name@ == "modifiers"@ || name@ == "delete"@,
    ensures
        final(m)@.dom() == old(m)@.dom().insert(name@),
        forall|c: Seq<char>| c != name@ && #[trigger] old(m)@.contains_key(c) ==> final(m)@[c] == old(m)@[c],
        category_set(entry(old(m)@, name@), name@, p, final(m)@[name@]),
{
    let c = match m.remove(name) {
        Some(c) => CategoryOverride { keydown: Some(p), ..c },
        None => {
            let keys = if str_eq(name, "modifiers") {
                vec![
                    String::from_str("ShiftLeft"),
                    String::from_str("ShiftRight"),
                    String::from_str("ControlLeft"),
                    String::from_str("ControlRight"),
                    String::from_str("Alt"),
                    String::from_str("AltGr"),
                    String::from_str("MetaLeft"),
                    String::from_str("MetaRight"),
                ]
            } else {
                vec![String::from_str("Backspace"), String::from_str("Delete")]
            };
            let volume = if str_eq(name, "modifiers") { Some(MODIFIER_VOLUME) } else { None };
            let c = CategoryOverride { keys, keydown: Some(p), keyup: None, volume };
            assert(names_of(c.keys@) =~= fresh_category_keys(name@));
            c
        },
    };
    m.insert(String::from_str(name), c);
    assert(final(m)@.dom() =~= old(m)@.dom().insert(name@));
}

/// Whether `p1` is `p0` after the keydown path of `slot` was set (`Some`)
/// or cleared (`None`). Setting a slot whose target is absent creates it;
/// clearing removes the target, except for `default`, which can only be
/// reassigned. Nothing else changes but the original names, which this
/// does not constrain.
pub open spec fn slot_applied(p0: SoundPack, p1: SoundPack, slot: Seq<char>, path: Option<String>) -> bool {
    &&& p1.defaults.keydown == (if slot == "default"@ && path is Some { path->0 } else { p0.defaults.keydown })
    &&& p1.key_overrides@ == (match slot_key(slot) {
        Some(k) => match path {
            Some(p) => p0.key_overrides@.insert(k, key_sound_set(entry(p0.key_overrides@, k), p)),
            None => p0.key_overrides@.remove(k),
        },
        None => p0.key_overrides@,
    })
    &&& slot_category(slot) is None ==> p1.category_overrides@ == p0.category_overrides@
    &&& slot_category(slot) is Some && path is None ==> p1.category_overrides@
        == p0.category_overrides@.remove(slot_category(slot)->0)
    &&& slot_category(slot) is Some && path is Some ==> {
        let c = slot_category(slot)->0;
        let m0 = p0.category_overrides@;
        let m1 = p1.category_overrides@;
        &&& m1.dom() == m0.dom().insert(c)
        &&& forall|d: Seq<char>| d != c && #[trigger] m0.contains_key(d) ==> m1[d] == m0[d]
        &&& category_set(entry(m0, c), c, path->0, m1[c])
    }
    &&& p1.defaults.keyup == p0.defaults.keyup
    &&& p1.defaults.volume == p0.defaults.volume
    &&& p1.id == p0.id
    &&& p1.name == p0.name
    &&& p1.author == p0.author
    &&& p1.version == p0.version
    &&& p1.description == p0.description
    &&& p1.source == p0.source
    &&& p1.base_path == p0.base_path
}

/// Sets (`Some`) or clears (`None`) the keydown path of a slot; see
/// `slot_applied`.
pub fn apply_slot_to_pack(pack: &mut SoundPack, slot: &str, path: Option<String>)
    ensures
        slot_applied(*old(pack), *final(pack), slot@, path),
        final(pack).original_names@ == old(pack).original_names@,
{
    proof {
        lemma_slot_kinds(slot@);
    }
    match parse_slot(slot) {
        Some(Slot::Default) => {
            if let Some(p) = path {
                pack.defaults.keydown = p;
            }
        },
        Some(Slot::Space) => set_or_clear_key(&mut pack.key_overrides, "Space", path),
        Some(Slot::Enter) => set_or_clear_key(&mut pack.key_overrides, "Return", path),
        Some(Slot::Modifier) => set_or_clear_category(&mut pack.category_overrides, "modifiers", path),
        Some(Slot::Backspace) => set_or_clear_category(&mut pack.category_overrides, "delete", path),
        Some(Slot::Key(k)) => set_or_clear_key(&mut pack.key_overrides, k.as_str(), path),
        None => {},
    }
}

fn set_or_clear_key(m: &mut StrMap<KeySound>, k: &str, path: Option<String>)
    ensures
        final(m)@ == (match path {
            Some(p) => old(m)@.insert(k@, key_sound_set(entry(old(m)@, k@), p)),
            None => old(m)@.remove(k@),
        }),
{
    match path {
        Some(p) => set_key_keydown(m, k, p),
        None => {
            m.remove(k);
        },
    }
}

fn set_or_clear_category(m: &mut StrMap<CategoryOverride>, name: &str, path: Option<String>)
    requires
        name@ == "modifiers"@ || name@ == "delete"@,
    ensures
        path is None ==> final(m)@ == old(m)@.remove(name@),
        path is Some ==> {
            &&& final(m)@.dom() == old(m)@.dom().insert(name@)
            &&& forall|d: Seq<char>| d != name@ && #[trigger] old(m)@.contains_key(d) ==> final(m)@[d] == old(m)@[d]
            &&& category_set(entry(old(m)@, name@), name@, path->0, final(m)@[name@])
        },
{
    match path {
        Some(p) => set_category_keydown(m, name, p),
        None => {
            m.remove(name);
        },
    }
}

/// One row of a pack's slot listing.
pub struct SlotInfo {
    pub slot: String,
    pub label: String,
    /// The file name to show for the slot's sound, if it has one.
    pub file_name: Option<String>,
}

/// The labels of the fixed slots, in listing order.
pub open spec fn fixed_labels() -> Seq<Seq<char>> {
    seq!["Default Key"@, "Space"@, "Enter"@, "Modifiers"@, "Backspace / Delete"@]
}

/// The keys among `keys` that get a `key:` slot of their own: all but
/// `Space` and `Return`, which the fixed slots cover. Order is kept.
pub open spec fn listed_keys_of(keys: Seq<Seq<char>>) -> Seq<Seq<char>>
    decreases keys.len(),
{
    if keys.len() == 0 {
        Seq::empty()
    } else {
        let rest = listed_keys_of(keys.drop_last());
        let k = keys.last();
        if k == "Space"@ || k == "Return"@ {
            rest
        } else {
            rest.push(k)
        }
    }
}

/// The keys of a pack that get a `key:` slot, in listing order.
pub open spec fn listed_keys(pack: SoundPack) -> Seq<Seq<char>> {
    listed_keys_of(pack.key_overrides.keys())
}

/// The file name shown for a slot: the name its sound was imported from,
/// else the file name of its path.
pub open spec fn shown_name(pack: SoundPack, slot: Seq<char>) -> Option<Seq<char>> {
    if pack.original_names@.contains_key(slot) {
        Some(pack.original_names@[slot]@)
    } else if slot_path(pack, slot) is Some {
        file_name_of(slot_path(pack, slot)->0)
    } else {
        None
    }
}

/// What the listing shows as a slot's file: the shown name, except that a
/// `default` slot still on the generated placeholder shows nothing.
pub open spec fn slot_display(pack: SoundPack, slot: Seq<char>) -> Option<Seq<char>> {
    if slot == "default"@ && !pack.original_names@.contains_key(slot) && shown_name(pack, slot)
        == Some("keydown.wav"@) {
        None
    } else {
        shown_name(pack, slot)
    }
}

proof fn lemma_listed_keys(keys: Seq<Seq<char>>)
    requires
        strictly_sorted(keys),
    ensures
        strictly_sorted(listed_keys_of(keys)),
        forall|x: Seq<char>| #[trigger] listed_keys_of(keys).contains(x)
            <==> (keys.contains(x) && x != "Space"@ && x != "Return"@),
    decreases keys.len(),
{
    if keys.len() > 0 {
        let init = keys.drop_last();
        assert(strictly_sorted(init)) by {
            assert forall|i: int, j: int| 0 <= i < j < init.len() implies seq_lt(#[trigger] init[i], #[trigger] init[j]) by {
                assert(init[i] == keys[i] && init[j] == keys[j]);
            }
        }
        lemma_listed_keys(init);
        let rest = listed_keys_of(init);
        let k = keys.last();
        assert forall|x: Seq<char>| keys.contains(x) <==> (init.contains(x) || x == k) by {
            if keys.contains(x) && x != k {
                let i = choose|i: int| 0 <= i < keys.len() && keys[i] == x;
                assert(init[i] == x);
            }
            if init.contains(x) {
                let i = choose|i: int| 0 <= i < init.len() && init[i] == x;
                assert(keys[i] == x);
            }
        }
        if !(k == "Space"@ || k == "Return"@) {
            let out = rest.push(k);
            assert forall|i: int, j: int| 0 <= i < j < out.len() implies seq_lt(#[trigger] out[i], #[trigger] out[j]) by {
                if j == out.len() - 1 {
                    assert(rest.contains(out[i]));
                    let a = choose|a: int| 0 <= a < init.len() && init[a] == out[i];
                    assert(keys[a] == out[i]);
                    assert(seq_lt(keys[a], keys[keys.len() - 1]));
                } else {
                    assert(out[i] == rest[i] && out[j] == rest[j]);
                }
            }
            assert forall|x: Seq<char>| #[trigger] out.contains(x) <==> (rest.contains(x) || x == k) by {
                if out.contains(x) && x != k {
                    let i = choose|i: int| 0 <= i < out.len() && out[i] == x;
                    assert(rest[i] == x);
                }
                if rest.contains(x) {
                    let i = choose|i: int| 0 <= i < rest.len() && rest[i] == x;
                    assert(out[i] == x);
                }
                if x == k {
                    assert(out[out.len() - 1] == k);
                }
            }
        }
    }
}

/// The file name to show for `slot` of `pack`.
fn slot_file_name(pack: &SoundPack, slot: &str) -> (r: Option<String>)
    ensures
        opt_view(r) == slot_display(*pack, slot@),
{
    let shown = match pack.original_names.get(slot) {
        Some(n) => Some(n.clone()),
        None => match get_slot_path(pack, slot) {
            Some(p) => file_name(p.as_str()),
            None => None,
        },
    };
    if str_eq(slot, "default") && !pack.original_names.contains_key(slot) {
        if let Some(n) = &shown {
            if str_eq(n.as_str(), "keydown.wav") {
                return None;
            }
        }
    }
    shown
}

/// A `key:` slot addresses the key after its prefix.
proof fn lemma_key_slot(k: Seq<char>)
    ensures
        slot_key("key:"@ + k) == Some(k),
        "key:"@ + k != "default"@,
{
    reveal_strlit("key:");
    lemma_fixed_slots();
    let s = "key:"@ + k;
    assert(s.take(4) =~= "key:"@);
    assert(s.skip(4) =~= k);
    assert(fixed_slots()[0] == "default"@ && fixed_slots()[1] == "space"@ && fixed_slots()[2] == "enter"@);
}

/// Lists the slots of a pack: the five fixed slots in fixed order, then a
/// `key:` slot for each other key override, sorted by key identifier.
pub fn get_all_slots(pack: &SoundPack) -> (r: Vec<SlotInfo>)
    ensures
        r@.len() == 5 + listed_keys(*pack).len(),
        forall|i: int| 0 <= i < 5 ==> (#[trigger] r@[i]).slot@ == fixed_slots()[i] && r@[i].label@ == fixed_labels()[i],
        forall|j: int| 0 <= j < listed_keys(*pack).len() ==> (#[trigger] r@[5 + j]).slot@ == "key:"@ + listed_keys(*pack)[j]
            && r@[5 + j].label@ == listed_keys(*pack)[j],
        forall|i: int| 0 <= i < r@.len() ==> opt_view((#[trigger] r@[i]).file_name) == slot_display(*pack, r@[i].slot@),
        strictly_sorted(listed_keys(*pack)),
        forall|k: Seq<char>| #[trigger] listed_keys(*pack).contains(k)
            <==> (pack.key_overrides@.contains_key(k) && k != "Space"@ && k != "Return"@),
{
    let mut r: Vec<SlotInfo> = Vec::new();
    let fixed = ["default", "space", "enter", "modifier", "backspace"];
    let labels = ["Default Key", "Space", "Enter", "Modifiers", "Backspace / Delete"];
    let mut i: usize = 0;
    while i < 5
        invariant
            i <= 5,
            r@.len() == i,
            fixed@ == seq!["default", "space", "enter", "modifier", "backspace"],
            labels@ == seq!["Default Key", "Space", "Enter", "Modifiers", "Backspace / Delete"],
            forall|a: int| 0 <= a < i ==> (#[trigger] r@[a]).slot@ == fixed_slots()[a] && r@[a].label@ == fixed_labels()[a],
            forall|a: int| 0 <= a < i ==> opt_view((#[trigger] r@[a]).file_name) == slot_display(*pack, r@[a].slot@),
        decreases 5 - i,
    {
        let slot = fixed[i];
        assert(slot@ == fixed_slots()[i as int]);
        assert(labels[i as int]@ == fixed_labels()[i as int]);
        let file_name = slot_file_name(pack, slot);
        r.push(SlotInfo { slot: String::from_str(slot), label: String::from_str(labels[i]), file_name });
        i = i + 1;
    }
    let n = pack.key_overrides.len();
    let ghost keys = pack.key_overrides.keys();
    proof {
        lemma_listed_keys(keys);
    }
    let mut j: usize = 0;
    while j < n
        invariant
            n == keys.len(),
            keys == pack.key_overrides.keys(),
            j <= n,
            r@.len() == 5 + listed_keys_of(keys.take(j as int)).len(),
            forall|a: int| 0 <= a < 5 ==> (#[trigger] r@[a]).slot@ == fixed_slots()[a] && r@[a].label@ == fixed_labels()[a],
            forall|b: int| 0 <= b < listed_keys_of(keys.take(j as int)).len() ==> (#[trigger] r@[5 + b]).slot@ == "key:"@
                + listed_keys_of(keys.take(j as int))[b] && r@[5 + b].label@ == listed_keys_of(keys.take(j as int))[b],
            forall|a: int| 0 <= a < r@.len() ==> opt_view((#[trigger] r@[a]).file_name) == slot_display(*pack, r@[a].slot@),
            forall|b: int| 0 <= b < n ==> pack.key_overrides@.contains_key(#[trigger] keys[b]),
        decreases n - j,
    {
        let key = pack.key_overrides.key_at(j);
        assert(keys.take(j + 1).drop_last() =~= keys.take(j as int));
        assert(keys.take(j + 1).last() == key@);
        if !str_eq(key.as_str(), "Space") && !str_eq(key.as_str(), "Return") {
            let slot = String::from_str("key:").concat(key.as_str());
            proof {
                lemma_key_slot(key@);
            }
            let file_name = slot_file_name(pack, slot.as_str());
            r.push(SlotInfo { slot, label: key.clone(), file_name });
        }
        j = j + 1;
    }
    assert(keys.take(n as int) =~= keys);
    r
}

} // verus!
