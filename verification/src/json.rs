//! JSON array-of-strings columns (skill keys, save keys, conditions), read and
//! written with `serde_json`, and the list logic on top of them.
use vstd::prelude::*;

use crate::text::{chars_of, same_text, string_from_range};

verus! {

/// The list of strings that `raw` spells as a JSON array of strings, or
/// `None` when `raw` is not such an array.
pub uninterp spec fn json_string_list(raw: Seq<char>) -> Option<Seq<Seq<char>>>;

/// The JSON text for the list of strings `items`, or `None` when
/// serialization fails.
pub uninterp spec fn json_rendering(items: Seq<Seq<char>>) -> Option<Seq<char>>;

/// Decodes a JSON array of strings.
/// Trusted: `serde_json::from_str::<Vec<String>>` is a pure function of its
/// input; its result, `Ok` or `Err`, is named `json_string_list` here.
#[verifier::external_body]
fn decode_string_list(raw: &str) -> (r: Option<Vec<String>>)
    ensures
        r is Some <==> json_string_list(raw@) is Some,
        r matches Some(v) ==> json_string_list(raw@) == Some(v.deep_view()),
{
    serde_json::from_str::<Vec<String>>(raw).ok()
}

/// Encodes a list of strings as a JSON array.
/// Trusted: `serde_json::to_string` on a `Vec<String>` is a pure function of
/// the strings; its result, `Ok` or `Err`, is named `json_rendering` here.
#[verifier::external_body]
fn encode_string_list(items: &Vec<String>) -> (r: Option<String>)
    ensures
        r is Some <==> json_rendering(items.deep_view()) is Some,
        r matches Some(s) ==> json_rendering(items.deep_view()) == Some(s@),
{
    serde_json::to_string(items).ok()
}

/// The keys stored in a JSON column, with anything that is not a JSON array
/// of strings read as the empty list.
pub open spec fn decoded_list(raw: Seq<char>) -> Seq<Seq<char>> {
    match json_string_list(raw) {
        Some(l) => l,
        None => Seq::empty(),
    }
}

/// Decode a JSON array column, tolerating corruption by falling back to
/// empty rather than failing.
pub fn decode_keys(raw: &str) -> (keys: Vec<String>)
    ensures
        keys.deep_view() == decoded_list(raw@),
{
    match decode_string_list(raw) {
        Some(v) => v,
        None => {
            let v: Vec<String> = Vec::new();
            assert(v.deep_view() =~= Seq::<Seq<char>>::empty());
            v
        },
    }
}

/// An owned copy of `s`.
pub fn owned(s: &str) -> (r: String)
    ensures
        r@ == s@,
{
    let chars = chars_of(s);
    assert(chars@.subrange(0, chars@.len() as int) =~= chars@);
    string_from_range(&chars, 0, chars.len())
}

/// Index of the first element equal to `v` at or after `i`, or `s.len()`.
pub open spec fn index_from(s: Seq<Seq<char>>, v: Seq<char>, i: int) -> int
    decreases s.len() - i,
{
    if i >= s.len() || i < 0 {
        s.len() as int
    } else if s[i] == v {
        i
    } else {
        index_from(s, v, i + 1)
    }
}

/// The list with `v` taken out (its first occurrence) when present, or
/// appended when absent.
pub open spec fn toggle_spec(keys: Seq<Seq<char>>, v: Seq<char>) -> Seq<Seq<char>> {
    let i = index_from(keys, v, 0);
    if i < keys.len() {
        keys.remove(i)
    } else {
        keys.push(v)
    }
}

proof fn lemma_index_from(s: Seq<Seq<char>>, v: Seq<char>, i: int)
    requires
        0 <= i <= s.len(),
    ensures
        i <= index_from(s, v, i) <= s.len(),
        index_from(s, v, i) < s.len() ==> s[index_from(s, v, i)] == v,
        forall|j: int| i <= j < index_from(s, v, i) ==> s[j] != v,
    decreases s.len() - i,
{
    if i < s.len() && s[i] != v {
        lemma_index_from(s, v, i + 1);
    }
}

/// Index of `value` in `keys`, or `keys.len()` when absent.
pub fn position_of(keys: &Vec<String>, value: &str) -> (i: usize)
    ensures
        i == index_from(keys.deep_view(), value@, 0),
{
    let ghost s = keys.deep_view();
    let mut i: usize = 0;
    while i < keys.len()
        invariant
            i <= keys.len(),
            s == keys.deep_view(),
            index_from(s, value@, 0) == index_from(s, value@, i as int),
        decreases keys.len() - i,
    {
        if same_text(keys[i].as_str(), value) {
            return i;
        }
        i = i + 1;
    }
    i
}

/// Whether `keys` holds `value`.
pub fn list_contains(keys: &Vec<String>, value: &str) -> (b: bool)
    ensures
        b == keys.deep_view().contains(value@),
{
    let i = position_of(keys, value);
    proof {
        lemma_index_from(keys.deep_view(), value@, 0);
    }
    i < keys.len()
}

/// Takes `value` out of `keys` when present, appends it when absent.
pub fn toggle_in_list(keys: &mut Vec<String>, value: &str)
    ensures
        final(keys).deep_view() == toggle_spec(old(keys).deep_view(), value@),
{
    let ghost before = keys.deep_view();
    let i = position_of(keys, value);
    if i < keys.len() {
        keys.remove(i);
        assert(keys.deep_view() =~= before.remove(i as int));
    } else {
        keys.push(owned(value));
        assert(keys.deep_view() =~= before.push(value@));
    }
}

/// The JSON text stored for a toggled list: the encoding of the list, or `[]`
/// when encoding fails.
pub open spec fn stored_json(keys: Seq<Seq<char>>) -> Seq<char> {
    match json_rendering(keys) {
        Some(s) => s,
        None => "[]"@,
    }
}

/// Toggle a value's presence in a JSON array column.
pub fn toggled_json_array(raw: &str, value: &str) -> (r: String)
    ensures
        r@ == stored_json(toggle_spec(decoded_list(raw@), value@)),
{
    let mut keys = decode_keys(raw);
    toggle_in_list(&mut keys, value);
    match encode_string_list(&keys) {
        Some(s) => s,
        None => owned("[]"),
    }
}

/// Toggling a value that is absent and then toggling it again gives back the
/// list it started from.
pub proof fn lemma_toggle_twice_absent(keys: Seq<Seq<char>>, v: Seq<char>)
    requires
        !keys.contains(v),
    ensures
        toggle_spec(toggle_spec(keys, v), v) == keys,
{
    lemma_index_from(keys, v, 0);
    let once = keys.push(v);
    assert(toggle_spec(keys, v) == once);
    lemma_index_from(once, v, 0);
    assert forall|j: int| 0 <= j < keys.len() implies once[j] != v by {
        assert(keys[j] != v);
    }
    let k = index_from(once, v, 0);
    assert(once[keys.len() as int] == v);
    if k < keys.len() {
        assert(once[k] == keys[k]);
    }
    assert(k == keys.len());
    assert(once.remove(keys.len() as int) =~= keys);
}

/// For a list without repeats, toggling flips whether the value is present,
/// leaves every other value's presence alone, and keeps the list free of
/// repeats.
pub proof fn lemma_toggle_flips_membership(keys: Seq<Seq<char>>, v: Seq<char>)
    requires
        keys.no_duplicates(),
    ensures
        toggle_spec(keys, v).contains(v) == !keys.contains(v),
        forall|w: Seq<char>| w != v ==> toggle_spec(keys, v).contains(w) == keys.contains(w),
        toggle_spec(keys, v).no_duplicates(),
{
    lemma_index_from(keys, v, 0);
    let i = index_from(keys, v, 0);
    let t = toggle_spec(keys, v);
    if i < keys.len() {
        assert(t == keys.remove(i));
        assert forall|w: Seq<char>| t.contains(w) implies keys.contains(w) by {
            let j = choose|j: int| 0 <= j < t.len() && t[j] == w;
            if j < i {
                assert(keys[j] == w);
            } else {
                assert(keys[j + 1] == w);
            }
        }
        assert forall|w: Seq<char>| w != v && keys.contains(w) implies t.contains(w) by {
            let j = choose|j: int| 0 <= j < keys.len() && keys[j] == w;
            if j < i {
                assert(t[j] == w);
            } else {
                assert(j != i);
                assert(t[j - 1] == w);
            }
        }
        assert(!t.contains(v)) by {
            if t.contains(v) {
                let j = choose|j: int| 0 <= j < t.len() && t[j] == v;
                if j < i {
                    assert(keys[j] == v);
                } else {
                    assert(keys[j + 1] == v);
                }
            }
        }
        assert forall|a: int, b: int| 0 <= a < t.len() && 0 <= b < t.len() && a != b implies t[a]
            != t[b] by {
            let ka = if a < i {
                a
            } else {
                a + 1
            };
            let kb = if b < i {
                b
            } else {
                b + 1
            };
            assert(t[a] == keys[ka]);
            assert(t[b] == keys[kb]);
        }
    } else {
        assert(!keys.contains(v)) by {
            if keys.contains(v) {
                let j = choose|j: int| 0 <= j < keys.len() && keys[j] == v;
                assert(keys[j] != v);
            }
        }
        assert(t == keys.push(v));
        assert(t[keys.len() as int] == v);
        assert forall|w: Seq<char>| w != v && t.contains(w) implies keys.contains(w) by {
            let j = choose|j: int| 0 <= j < t.len() && t[j] == w;
            assert(j < keys.len());
            assert(keys[j] == w);
        }
        assert forall|w: Seq<char>| keys.contains(w) implies t.contains(w) by {
            let j = choose|j: int| 0 <= j < keys.len() && keys[j] == w;
            assert(t[j] == w);
        }
        assert forall|a: int, b: int| 0 <= a < t.len() && 0 <= b < t.len() && a != b implies t[a]
            != t[b] by {
            if a < keys.len() && b < keys.len() {
                assert(t[a] == keys[a] && t[b] == keys[b]);
            } else if a < keys.len() {
                assert(t[a] == keys[a]);
            } else if b < keys.len() {
                assert(t[b] == keys[b]);
            }
        }
    }
}

} // verus!
