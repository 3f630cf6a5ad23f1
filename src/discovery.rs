//! The order in which discovered packs are offered: the pack with id
//! `default` first, then the user's packs, then the other bundled ones,
//! each group sorted by id.
use vstd::prelude::*;
use vstd::multiset::Multiset;
use crate::sound_pack::SoundPack;
use crate::text::{compare_str, lemma_seq_lt_total, lemma_seq_lt_transitive, seq_lt, str_eq};

verus! {

/// Whether `id` is the id of the default pack.
pub open spec fn is_default_id(id: Seq<char>) -> bool {
    id == "default"@
}

/// Whether a pack with id `a` may be listed before one with id `b`: the
/// default pack first, the others by id.
pub open spec fn id_le(a: Seq<char>, b: Seq<char>) -> bool {
    if is_default_id(a) {
        true
    } else if is_default_id(b) {
        false
    } else {
        a == b || seq_lt(a, b)
    }
}

/// Whether packs are listed in discovery order.
pub open spec fn packs_ordered(s: Seq<SoundPack>) -> bool {
    forall|i: int, j: int| 0 <= i < j < s.len() ==> id_le(#[trigger] s[i].id@, #[trigger] s[j].id@)
}

/// The packs of `s` whose id is (`want`) or is not (`!want`) `default`,
/// in their order in `s`.
pub open spec fn with_default_id(s: Seq<SoundPack>, want: bool) -> Seq<SoundPack>
    decreases s.len(),
{
    if s.len() == 0 {
        Seq::empty()
    } else {
        let rest = with_default_id(s.drop_first(), want);
        if is_default_id(s[0].id@) == want {
            seq![s[0]] + rest
        } else {
            rest
        }
    }
}

/// The merged listing of bundled and user packs.
pub open spec fn merged(bundled: Seq<SoundPack>, user: Seq<SoundPack>) -> Seq<SoundPack> {
    with_default_id(bundled, true) + user + with_default_id(bundled, false)
}

proof fn lemma_id_le_total(a: Seq<char>, b: Seq<char>)
    ensures
        id_le(a, b) || id_le(b, a),
        a != b ==> !(id_le(a, b) && id_le(b, a)) || (is_default_id(a) && is_default_id(b)),
{
    lemma_seq_lt_total(a, b);
}

proof fn lemma_id_le_transitive(a: Seq<char>, b: Seq<char>, c: Seq<char>)
    requires
        id_le(a, b),
        id_le(b, c),
    ensures
        id_le(a, c),
{
    if !is_default_id(a) && !is_default_id(b) && !is_default_id(c) {
        if a != b && b != c {
            lemma_seq_lt_transitive(a, b, c);
        }
    }
}

fn id_le_exec(a: &str, b: &str) -> (r: bool)
    ensures
        r == id_le(a@, b@),
{
    if str_eq(a, "default") {
        true
    } else if str_eq(b, "default") {
        false
    } else {
        compare_str(a, b) <= 0
    }
}

proof fn lemma_insert_multiset(s: Seq<SoundPack>, i: int, x: SoundPack)
    requires
        0 <= i <= s.len(),
    ensures
        s.insert(i, x).to_multiset() =~= s.to_multiset().insert(x),
{
    broadcast use vstd::seq_lib::group_to_multiset_ensures;
    let t = s.insert(i, x);
    assert(t.remove(i) =~= s);
    assert(t[i] == x);
    assert(t.contains(x));
    assert(s.to_multiset() =~= t.to_multiset().remove(x));
}

/// Orders discovered packs: the pack with id `default` first, then the
/// others by id (packs with equal ids keep their order).
pub fn discover_packs(found: Vec<SoundPack>) -> (r: Vec<SoundPack>)
    ensures
        packs_ordered(r@),
        r@.to_multiset() == found@.to_multiset(),
{
    broadcast use vstd::seq_lib::group_to_multiset_ensures;
    let ghost input = found@;
    let mut found = found;
    let mut out: Vec<SoundPack> = Vec::new();
    while found.len() > 0
        invariant
            packs_ordered(out@),
            out@.to_multiset().add(found@.to_multiset()) == input.to_multiset(),
        decreases found@.len(),
    {
        let ghost before_found = found@;
        let ghost before_out = out@;
        let p = found.pop().unwrap();
        assert(before_found =~= found@.push(p));
        let mut k: usize = 0;
        while k < out.len() && !id_le_exec(p.id.as_str(), out[k].id.as_str())
            invariant
                out@ == before_out,
                before_found == found@.push(p),
                k <= out@.len(),
                forall|a: int| 0 <= a < k ==> !id_le(p.id@, #[trigger] out@[a].id@),
            decreases out@.len() - k,
        {
            k = k + 1;
        }
        proof {
            lemma_insert_multiset(before_out, k as int, p);
            let t = before_out.insert(k as int, p);
            assert forall|i: int, j: int| 0 <= i < j < t.len() implies id_le(#[trigger] t[i].id@, #[trigger] t[j].id@) by {
                if j == k {
                    lemma_id_le_total(p.id@, before_out[i].id@);
                } else if i == k {
                    assert(id_le(p.id@, before_out[k as int].id@));
                    if j - 1 > k {
                        assert(id_le(before_out[k as int].id@, before_out[j - 1].id@));
                        lemma_id_le_transitive(p.id@, before_out[k as int].id@, before_out[j - 1].id@);
                    }
                } else if i < k && j > k {
                    assert(t[i] == before_out[i] && t[j] == before_out[j - 1]);
                    assert(id_le(before_out[i].id@, before_out[j - 1].id@));
                } else if i > k {
                    assert(t[i] == before_out[i - 1] && t[j] == before_out[j - 1]);
                } else {
                    assert(t[i] == before_out[i] && t[j] == before_out[j]);
                }
            }
        }
        out.insert(k, p);
        proof {
            assert(out@.to_multiset() =~= before_out.to_multiset().insert(p));
            found@.to_multiset_ensures();
            assert(found@.push(p).to_multiset() =~= found@.to_multiset().insert(p));
            assert(before_found.to_multiset() =~= found@.to_multiset().insert(p));
            assert(out@.to_multiset().add(found@.to_multiset()) =~= before_out.to_multiset().add(before_found.to_multiset()));
        }
    }
    assert(found@.to_multiset() =~= Multiset::empty());
    assert(out@.to_multiset() =~= out@.to_multiset().add(Multiset::empty()));
    out
}

/// Merges the ordered bundled and user packs: bundled packs with id
/// `default` first, then the user packs, then the other bundled packs.
pub fn discover_all_packs(bundled: Vec<SoundPack>, user: Vec<SoundPack>) -> (r: Vec<SoundPack>)
    ensures
        r@ == merged(bundled@, user@),
{
    let ghost input = bundled@;
    let mut bundled = bundled;
    let mut user = user;
    let mut first: Vec<SoundPack> = Vec::new();
    let mut rest: Vec<SoundPack> = Vec::new();
    while bundled.len() > 0
        invariant
            first@ + with_default_id(bundled@, true) == with_default_id(input, true),
            rest@ + with_default_id(bundled@, false) == with_default_id(input, false),
        decreases bundled@.len(),
    {
        let ghost before = bundled@;
        let p = bundled.remove(0);
        assert(before.drop_first() =~= bundled@);
        if str_eq(p.id.as_str(), "default") {
            let ghost f0 = first@;
            first.push(p);
            assert(f0 + (seq![p] + with_default_id(bundled@, true)) =~= first@ + with_default_id(bundled@, true));
        } else {
            let ghost r0 = rest@;
            rest.push(p);
            assert(r0 + (seq![p] + with_default_id(bundled@, false)) =~= rest@ + with_default_id(bundled@, false));
        }
    }
    assert(first@ =~= with_default_id(input, true));
    assert(rest@ =~= with_default_id(input, false));
    let ghost u = user@;
    first.append(&mut user);
    first.append(&mut rest);
    assert(first@ =~= merged(input, u));
    first
}

proof fn lemma_with_default_id(s: Seq<SoundPack>, want: bool)
    ensures
        forall|i: int| 0 <= i < with_default_id(s, want).len() ==> is_default_id(#[trigger] with_default_id(s, want)[i].id@) == want,
        packs_ordered(s) ==> packs_ordered(with_default_id(s, want)),
        forall|x: SoundPack| #[trigger] with_default_id(s, want).contains(x) ==> s.contains(x),
    decreases s.len(),
{
    if s.len() > 0 {
        let tail = s.drop_first();
        lemma_with_default_id(tail, want);
        let rest = with_default_id(tail, want);
        assert forall|x: SoundPack| #[trigger] rest.contains(x) implies s.contains(x) by {
            let i = choose|i: int| 0 <= i < tail.len() && tail[i] == x;
            assert(s[i + 1] == x);
        }
        if packs_ordered(s) {
            assert(packs_ordered(tail)) by {
                assert forall|i: int, j: int| 0 <= i < j < tail.len() implies id_le(#[trigger] tail[i].id@, #[trigger] tail[j].id@) by {
                    assert(tail[i] == s[i + 1] && tail[j] == s[j + 1]);
                }
            }
        }
        if is_default_id(s[0].id@) == want {
            let out = seq![s[0]] + rest;
            assert forall|x: SoundPack| #[trigger] out.contains(x) implies s.contains(x) by {
                let i = choose|i: int| 0 <= i < out.len() && out[i] == x;
                if i > 0 {
                    assert(rest[i - 1] == x);
                    assert(rest.contains(x));
                } else {
                    assert(s[0] == x);
                    assert(s.contains(x));
                }
            }
            assert forall|i: int| 0 <= i < out.len() implies is_default_id(#[trigger] out[i].id@) == want by {
                if i > 0 {
                    assert(out[i] == rest[i - 1]);
                }
            }
            if packs_ordered(s) {
                assert forall|i: int, j: int| 0 <= i < j < out.len() implies id_le(#[trigger] out[i].id@, #[trigger] out[j].id@) by {
                    if i == 0 {
                        assert(rest.contains(out[j])) by {
                            assert(rest[j - 1] == out[j]);
                        }
                        let a = choose|a: int| 0 <= a < tail.len() && tail[a] == out[j];
                        assert(s[a + 1] == out[j]);
                    } else {
                        assert(out[i] == rest[i - 1] && out[j] == rest[j - 1]);
                    }
                }
            }
        }
    }
}

/// Discovery order across the bundled and user directories: with each
/// directory's packs in discovery order, the merged listing has the
/// bundled `default` packs first, then the user packs in their order,
/// then the other bundled packs in id order; no pack is lost or added.
pub proof fn lemma_discovery_order(bundled: Seq<SoundPack>, user: Seq<SoundPack>)
    requires
        packs_ordered(bundled),
        packs_ordered(user),
    ensures
        ({
            let r = merged(bundled, user);
            let d = with_default_id(bundled, true).len() as int;
            &&& forall|i: int| 0 <= i < d ==> is_default_id(#[trigger] r[i].id@)
            &&& r.subrange(d, d + user.len() as int) == user
            &&& forall|i: int, j: int| d + user.len() <= i < j < r.len() ==> seq_lt(#[trigger] r[i].id@, #[trigger] r[j].id@)
                || r[i].id@ == r[j].id@
            &&& forall|i: int| d + user.len() <= i < r.len() ==> !is_default_id(#[trigger] r[i].id@)
            &&& r.to_multiset() == bundled.to_multiset().add(user.to_multiset())
        }),
{
    broadcast use vstd::seq_lib::group_to_multiset_ensures;
    lemma_with_default_id(bundled, true);
    lemma_with_default_id(bundled, false);
    lemma_split_multiset(bundled);
    let r = merged(bundled, user);
    let a = with_default_id(bundled, true);
    let b = with_default_id(bundled, false);
    let d = a.len() as int;
    assert(r.subrange(d, d + user.len() as int) =~= user);
    assert forall|i: int| 0 <= i < d implies is_default_id(#[trigger] r[i].id@) by {
        assert(r[i] == a[i]);
    }
    assert forall|i: int| d + user.len() <= i < r.len() implies !is_default_id(#[trigger] r[i].id@) by {
        assert(r[i] == b[i - d - user.len()]);
    }
    assert forall|i: int, j: int| d + user.len() <= i < j < r.len() implies seq_lt(#[trigger] r[i].id@, #[trigger] r[j].id@)
        || r[i].id@ == r[j].id@ by {
        assert(r[i] == b[i - d - user.len()] && r[j] == b[j - d - user.len()]);
        assert(id_le(b[i - d - user.len()].id@, b[j - d - user.len()].id@));
    }
    vstd::seq_lib::lemma_multiset_commutative(a, user);
    vstd::seq_lib::lemma_multiset_commutative(a + user, b);
    assert(r.to_multiset() =~= bundled.to_multiset().add(user.to_multiset()));
}

proof fn lemma_split_multiset(s: Seq<SoundPack>)
    ensures
        with_default_id(s, true).to_multiset().add(with_default_id(s, false).to_multiset()) == s.to_multiset(),
    decreases s.len(),
{
    broadcast use vstd::seq_lib::group_to_multiset_ensures;
    if s.len() == 0 {
        assert(with_default_id(s, true).to_multiset() =~= Multiset::empty());
        assert(with_default_id(s, false).to_multiset() =~= Multiset::empty());
        assert(s.to_multiset() =~= Multiset::empty());
    } else {
        lemma_split_multiset(s.drop_first());
        let x = s[0];
        assert(s =~= seq![x] + s.drop_first());
        vstd::seq_lib::lemma_multiset_commutative(seq![x], s.drop_first());
        let t = with_default_id(s.drop_first(), true);
        let f = with_default_id(s.drop_first(), false);
        vstd::seq_lib::lemma_multiset_commutative(seq![x], t);
        vstd::seq_lib::lemma_multiset_commutative(seq![x], f);
        assert(seq![x].to_multiset() =~= Multiset::empty().insert(x)) by {
            assert(seq![x] =~= Seq::<SoundPack>::empty().push(x));
        }
        assert(with_default_id(s, true).to_multiset().add(with_default_id(s, false).to_multiset()) =~= s.to_multiset());
    }
}

} // verus!
