//! Identifiers for new packs: slugs, decimal suffixes and collision-free ids.
use vstd::prelude::*;
use crate::text::{alphanumeric, is_alphanumeric, lower_of, lowercase, push_char, str_eq};

verus! {

/// The slug of an already lowercased name: its runs of alphanumeric
/// characters, joined by single dashes.
pub open spec fn slug_of(s: Seq<char>) -> Seq<char>
    decreases s.len(),
{
    if s.len() == 0 {
        Seq::empty()
    } else {
        let init = s.drop_last();
        let c = s.last();
        let rest = slug_of(init);
        if !alphanumeric(c) {
            rest
        } else if init.len() > 0 && !alphanumeric(init.last()) && rest.len() > 0 {
            rest.push('-').push(c)
        } else {
            rest.push(c)
        }
    }
}

/// A filesystem-safe identifier for a pack name: the name lowercased, each
/// run of other characters turned into one dash, no dash at either end.
pub fn slugify(name: &str) -> (r: String)
    ensures
        r@ == slug_of(lower_of(name@)),
{
    let lower = lowercase(name);
    let s = lower.as_str();
    let n = s.unicode_len();
    let mut out = String::new();
    let mut pending = false;
    let mut i: usize = 0;
    while i < n
        invariant
            n == s@.len(),
            s@ == lower_of(name@),
            i <= n,
            out@ == slug_of(s@.take(i as int)),
            pending == (i > 0 && !alphanumeric(s@[i - 1])),
        decreases n - i,
    {
        let c = s.get_char(i);
        let ghost prefix = s@.take(i + 1);
        assert(prefix.drop_last() =~= s@.take(i as int));
        assert(prefix.last() == c);
        if is_alphanumeric(c) {
            if pending && out.unicode_len() > 0 {
                push_char(&mut out, '-');
            }
            push_char(&mut out, c);
            pending = false;
        } else {
            pending = true;
        }
        i = i + 1;
    }
    assert(s@.take(n as int) =~= s@);
    out
}

/// The decimal digit for `d`.
pub open spec fn digit_char(d: nat) -> char {
    seq!['0', '1', '2', '3', '4', '5', '6', '7', '8', '9'][d as int]
}

/// The decimal numeral of `n`, without leading zeros.
pub open spec fn decimal(n: nat) -> Seq<char>
    decreases n,
{
    if n < 10 {
        seq![digit_char(n)]
    } else {
        decimal(n / 10).push(digit_char(n % 10))
    }
}

/// Appends the decimal numeral of `n` to `s`.
pub fn push_decimal(s: &mut String, n: u64)
    ensures
        final(s)@ == old(s)@ + decimal(n as nat),
    decreases n,
{
    if n >= 10 {
        push_decimal(s, n / 10);
    }
    let digits = ['0', '1', '2', '3', '4', '5', '6', '7', '8', '9'];
    let d = digits[(n % 10) as usize];
    assert(digits@ == seq!['0', '1', '2', '3', '4', '5', '6', '7', '8', '9']);
    push_char(s, d);
    assert(final(s)@ =~= old(s)@ + decimal(n as nat));
}

/// Whether some name in `names` is `s`.
pub open spec fn is_taken(names: Seq<String>, s: Seq<char>) -> bool {
    exists|i: int| 0 <= i < names.len() && #[trigger] names[i]@ == s
}

/// `base` with the numeric suffix `n`.
pub open spec fn suffixed(base: Seq<char>, n: nat) -> Seq<char> {
    base + seq!['-'] + decimal(n)
}

/// Numbered suffixes are tried up to, not including, this one.
pub const SUFFIX_LIMIT: u64 = 1000;

/// The first suffix from `n` on, below the limit, whose id is free.
pub open spec fn first_free_suffix(base: Seq<char>, names: Seq<String>, n: nat) -> Option<nat>
    decreases SUFFIX_LIMIT - n,
{
    if n >= SUFFIX_LIMIT {
        None
    } else if !is_taken(names, suffixed(base, n)) {
        Some(n)
    } else {
        first_free_suffix(base, names, n + 1)
    }
}

/// The id a new pack gets: `base` if free, else `base-2`, `base-3`, ...
/// (the first free one below the limit), else `base-<now_secs>`.
pub open spec fn unique_id_of(base: Seq<char>, names: Seq<String>, now_secs: nat) -> Seq<char> {
    if !is_taken(names, base) {
        base
    } else if first_free_suffix(base, names, 2) is Some {
        suffixed(base, first_free_suffix(base, names, 2)->0)
    } else {
        suffixed(base, now_secs)
    }
}

fn taken(names: &Vec<String>, s: &str) -> (r: bool)
    ensures
        r == is_taken(names@, s@),
{
    let mut i: usize = 0;
    while i < names.len()
        invariant
            i <= names@.len(),
            forall|j: int| 0 <= j < i ==> #[trigger] names@[j]@ != s@,
        decreases names@.len() - i,
    {
        if str_eq(names[i].as_str(), s) {
            return true;
        }
        i = i + 1;
    }
    false
}

/// An id for a new pack that no entry of `existing` (the names already in
/// the packs directory) holds. `now_secs` is the current time in seconds,
/// used only when every numbered suffix is taken.
pub fn unique_id(base: &str, existing: &Vec<String>, now_secs: u64) -> (r: String)
    ensures
        r@ == unique_id_of(base@, existing@, now_secs as nat),
{
    if !taken(existing, base) {
        return String::from_str(base);
    }
    let mut n: u64 = 2;
    while n < SUFFIX_LIMIT
        invariant
            2 <= n <= SUFFIX_LIMIT,
            is_taken(existing@, base@),
            first_free_suffix(base@, existing@, n as nat) == first_free_suffix(base@, existing@, 2),
        decreases SUFFIX_LIMIT - n,
    {
        let mut candidate = String::from_str(base);
        push_char(&mut candidate, '-');
        push_decimal(&mut candidate, n);
        assert(candidate@ =~= suffixed(base@, n as nat));
        if !taken(existing, candidate.as_str()) {
            return candidate;
        }
        n = n + 1;
    }
    let mut candidate = String::from_str(base);
    push_char(&mut candidate, '-');
    push_decimal(&mut candidate, now_secs);
    assert(candidate@ =~= suffixed(base@, now_secs as nat));
    candidate
}

} // verus!
