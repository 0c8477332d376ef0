//! JSON texts as `serde_json` reads and writes them.
//!
//! The library never interprets JSON values itself: it hands texts to
//! `serde_json` and works with what comes back, element by element or entry
//! by entry, each as the JSON text `serde_json` writes for it.  The names
//! below stand for those results; the contracts of the functions that make
//! the calls tie them to their inputs.

use vstd::prelude::*;

verus! {

#[verifier::external_type_specification]
#[verifier::external_body]
pub struct ExJsonError(serde_json::Error);

/// The JSON string literal for `s`, as `serde_json` writes it.
pub uninterp spec fn json_string_text(s: Seq<char>) -> Seq<u8>;

/// The elements of the JSON array `text`, each as `serde_json` writes it
/// back; `None` when `text` is not a JSON array.
pub uninterp spec fn json_array_items_of(text: Seq<u8>) -> Option<Seq<Seq<u8>>>;

/// The string that the JSON text `text` holds; `None` when it is not a JSON string.
pub uninterp spec fn json_string_of(text: Seq<u8>) -> Option<Seq<char>>;

/// The snake-case form of an identifier, as `heck` computes it.
pub uninterp spec fn snake_case_of(s: Seq<char>) -> Seq<char>;

/// Writes `s` as a JSON string literal with `serde_json::to_vec`.
///
/// Trusted: the output is a function of `s` alone (named, not described),
/// and the call succeeds: `to_vec` fails only when a value's `Serialize`
/// fails or a map has non-string keys, and a `str` into a `Vec` does neither.
#[verifier::external_body]
pub(crate) fn json_quote(s: &str) -> (r: Result<Vec<u8>, serde_json::Error>)
    ensures
        r is Ok,
        r matches Ok(v) ==> v@ == json_string_text(s@),
{
    serde_json::to_vec(s)
}

/// Reads a JSON array with `serde_json::from_slice::<Vec<serde_json::Value>>`
/// and writes each element back as text.
///
/// Trusted: the outcome is a function of `text` alone (named, not described).
#[verifier::external_body]
pub(crate) fn json_array_items(text: &[u8]) -> (r: Result<Vec<Vec<u8>>, serde_json::Error>)
    ensures
        match r {
            Ok(v) => json_array_items_of(text@) == Some(v@.map_values(|b: Vec<u8>| b@)),
            Err(_) => json_array_items_of(text@) is None,
        },
{
    let items: Vec<serde_json::Value> = serde_json::from_slice(text)?;
    Ok(items.iter().map(|v| v.to_string().into_bytes()).collect())
}

/// Reads a JSON string with `serde_json::from_slice::<String>`.
///
/// Trusted: the outcome is a function of `text` alone (named, not described).
#[verifier::external_body]
pub(crate) fn json_string(text: &[u8]) -> (r: Option<String>)
    ensures
        match r {
            Some(s) => json_string_of(text@) == Some(s@),
            None => json_string_of(text@) is None,
        },
{
    serde_json::from_slice::<String>(text).ok()
}

/// Converts an identifier to snake case with `heck::ToSnakeCase::to_snake_case`.
///
/// Trusted: the result is a function of `s` alone (named, not described).
#[verifier::external_body]
pub(crate) fn snake_case(s: &str) -> (r: String)
    ensures
        r@ == snake_case_of(s@),
{
    heck::ToSnakeCase::to_snake_case(s)
}

/// The entries of the JSON object `text`, each key with the JSON text of its
/// value as `serde_json` writes it back; `None` when `text` is not a JSON object.
pub uninterp spec fn json_object_entries_of(text: Seq<u8>) -> Option<Seq<(Seq<char>, Seq<u8>)>>;

/// The view of a list of object entries.
pub open spec fn entries_view(v: Seq<(String, Vec<u8>)>) -> Seq<(Seq<char>, Seq<u8>)> {
    v.map_values(|e: (String, Vec<u8>)| (e.0@, e.1@))
}

/// Reads a JSON object with `serde_json::from_slice::<serde_json::Map<String, serde_json::Value>>`
/// and writes each value back as text.
///
/// Trusted: the outcome is a function of `text` alone (named, not described).
#[verifier::external_body]
pub(crate) fn json_object_entries(text: &[u8]) -> (r: Option<Vec<(String, Vec<u8>)>>)
    ensures
        match r {
            Some(v) => json_object_entries_of(text@) == Some(entries_view(v@)),
            None => json_object_entries_of(text@) is None,
        },
{
    let map: serde_json::Map<String, serde_json::Value> = serde_json::from_slice(text).ok()?;
    Some(map.into_iter().map(|(k, v)| (k, v.to_string().into_bytes())).collect())
}

/// Whether entry `i` is the first whose key is `key`.
pub open spec fn first_key_index(es: Seq<(Seq<char>, Seq<u8>)>, key: Seq<char>, i: int) -> bool {
    &&& 0 <= i < es.len()
    &&& es[i].0 == key
    &&& forall|j: int| 0 <= j < i ==> es[j].0 != key
}

/// Taking the string field `key` out of the JSON object `text`: the field's
/// string and the remaining entries, in order; `None` when `text` is not an
/// object, has no such key, or the key's value is not a string.
pub open spec fn string_field_spec(text: Seq<u8>, key: Seq<char>) -> Option<
    (Seq<char>, Seq<(Seq<char>, Seq<u8>)>),
> {
    match json_object_entries_of(text) {
        None => None,
        Some(es) => {
            if exists|i: int| first_key_index(es, key, i) {
                let i = choose|i: int| first_key_index(es, key, i);
                match json_string_of(es[i].1) {
                    Some(v) => Some((v, es.remove(i))),
                    None => None,
                }
            } else {
                None
            }
        },
    }
}

/// The JSON text of the value under the first entry keyed `key`.
pub open spec fn field_text(es: Seq<(Seq<char>, Seq<u8>)>, key: Seq<char>) -> Option<Seq<u8>> {
    if exists|i: int| first_key_index(es, key, i) {
        Some(es[choose|i: int| first_key_index(es, key, i)].1)
    } else {
        None
    }
}

/// The position of the first entry keyed `key`.
pub fn find_key(entries: &Vec<(String, Vec<u8>)>, key: &str) -> (r: Option<usize>)
    ensures
        match r {
            Some(i) => first_key_index(entries_view(entries@), key@, i as int) && (choose|c: int|
                first_key_index(entries_view(entries@), key@, c)) == i,
            None => !exists|c: int| first_key_index(entries_view(entries@), key@, c),
        },
{
    let ghost es = entries_view(entries@);
    let k = key.to_owned();
    let mut i: usize = 0;
    while i < entries.len()
        invariant
            0 <= i <= entries@.len(),
            es == entries_view(entries@),
            k@ == key@,
            forall|j: int| 0 <= j < i ==> es[j].0 != key@,
        decreases entries@.len() - i,
    {
        if entries[i].0 == k {
            proof {
                assert(first_key_index(es, key@, i as int));
                let c = choose|c: int| first_key_index(es, key@, c);
                if c < i {
                    assert(es[c].0 != key@);
                }
                if c > i {
                    assert(es[i as int].0 != key@);
                }
            }
            return Some(i);
        }
        i = i + 1;
    }
    proof {
        assert(!exists|c: int| first_key_index(es, key@, c));
    }
    None
}

/// Reads the JSON object `text` and takes its string field `key` out of it:
/// returns the field's string and the other entries.
pub fn take_string_field(text: &[u8], key: &str) -> (r: Option<(String, Vec<(String, Vec<u8>)>)>)
    ensures
        match r {
            Some((v, rest)) => string_field_spec(text@, key@) == Some((v@, entries_view(rest@))),
            None => string_field_spec(text@, key@) is None,
        },
{
    let mut entries = match json_object_entries(text) {
        Some(e) => e,
        None => {
            return None;
        },
    };
    let ghost es = entries_view(entries@);
    let i = match find_key(&entries, key) {
        Some(i) => i,
        None => {
            return None;
        },
    };
    let value = match json_string(entries[i].1.as_slice()) {
        Some(v) => v,
        None => {
            return None;
        },
    };
    let _found = entries.remove(i);
    proof {
        assert(entries_view(entries@) =~= es.remove(i as int));
    }
    Some((value, entries))
}

/// The unsigned integer the JSON text `text` holds, as `serde_json` reads it;
/// `None` when it is not a number that fits in `u64`.
pub uninterp spec fn json_u64_of(text: Seq<u8>) -> Option<u64>;

/// Reads a JSON unsigned integer with `serde_json::from_slice::<u64>`.
///
/// Trusted: the outcome is a function of `text` alone (named, not described).
#[verifier::external_body]
pub(crate) fn json_u64(text: &[u8]) -> (r: Option<u64>)
    ensures
        r == json_u64_of(text@),
{
    serde_json::from_slice::<u64>(text).ok()
}

/// The strings of the JSON array `text`; `None` when it is not an array of strings.
pub open spec fn json_strings_of(text: Seq<u8>) -> Option<Seq<Seq<char>>> {
    match json_array_items_of(text) {
        None => None,
        Some(items) => {
            if forall|i: int| 0 <= i < items.len() ==> (#[trigger] json_string_of(items[i])) is Some {
                Some(Seq::new(items.len(), |i: int| json_string_of(items[i])->Some_0))
            } else {
                None
            }
        },
    }
}

/// Reads a JSON array of strings.
pub fn json_strings(text: &[u8]) -> (r: Option<Vec<String>>)
    ensures
        match r {
            Some(v) => json_strings_of(text@) == Some(v@.map_values(|s: String| s@)),
            None => json_strings_of(text@) is None,
        },
{
    let items = match json_array_items(text) {
        Ok(items) => items,
        Err(_) => {
            return None;
        },
    };
    let ghost iv = items@.map_values(|b: Vec<u8>| b@);
    let mut out: Vec<String> = Vec::new();
    let mut i: usize = 0;
    while i < items.len()
        invariant
            0 <= i <= items@.len(),
            iv == items@.map_values(|b: Vec<u8>| b@),
            json_array_items_of(text@) == Some(iv),
            out@.len() == i,
            forall|j: int| 0 <= j < i ==> json_string_of(#[trigger] iv[j]) == Some(out@[j]@),
        decreases items@.len() - i,
    {
        match json_string(items[i].as_slice()) {
            Some(s) => {
                out.push(s);
            },
            None => {
                proof {
                    assert(json_string_of(iv[i as int]) is None);
                }
                return None;
            },
        }
        i = i + 1;
    }
    proof {
        assert(forall|j: int| 0 <= j < iv.len() ==> (#[trigger] json_string_of(iv[j])) is Some);
        assert(out@.map_values(|s: String| s@) =~= Seq::new(iv.len(), |j: int| json_string_of(iv[j])->Some_0));
    }
    Some(out)
}

} // verus!
