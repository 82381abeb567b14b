//! What is in JSON documents.

use crate::text::{law_dots_lead_further_in, path_keys, split_path, texts};
use vstd::prelude::*;

verus! {

/// Declares `serde_json::Value`, of which nothing is known but what the functions below
/// say.
#[verifier::external_type_specification]
#[verifier::external_body]
pub struct ExValue(serde_json::Value);

/// What is in a JSON value, by the object keys that lead there: of each number the
/// bits of its double-precision value, of anything else only that it is there. The
/// value itself stands under the empty path.
pub type JsonEntries = Map<Seq<Seq<char>>, Option<u64>>;

/// What can be reached in a JSON value by object keys.
pub uninterp spec fn json_entries(value: serde_json::Value) -> Map<Seq<Seq<char>>, Option<u64>>;

/// What is in the JSON document that bytes spell, or what is wrong with it.
pub uninterp spec fn json_document(bytes: Seq<u8>) -> Result<
    Map<Seq<Seq<char>>, Option<u64>>,
    Seq<char>,
>;

/// What is reached by further keys once some keys were followed.
pub open spec fn beneath(entries: JsonEntries, keys: Seq<Seq<char>>) -> JsonEntries {
    Map::new(|path: Seq<Seq<char>>| entries.dom().contains(keys + path), |path: Seq<Seq<char>>|
        entries[keys + path])
}

/// The number that keys lead to, if they lead to one.
pub open spec fn number_under(entries: JsonEntries, keys: Seq<Seq<char>>) -> Option<u64> {
    if entries.dom().contains(keys) {
        entries[keys]
    } else {
        None
    }
}

/// Calls `serde_json::from_slice`. What is in the document, or the text of the error,
/// is named `json_document`.
#[verifier::external_body]
pub(crate) fn parse_document(bytes: &[u8]) -> (result: Result<serde_json::Value, String>)
    ensures
        match result {
            Ok(value) => json_document(bytes@) == Ok::<Map<Seq<Seq<char>>, Option<u64>>, Seq<char>>(
                json_entries(value),
            ),
            Err(message) => json_document(bytes@) == Err::<Map<Seq<Seq<char>>, Option<u64>>, Seq<char>>(
                message@,
            ),
        },
{
    serde_json::from_slice(bytes).map_err(|error: serde_json::Error| error.to_string())
}

/// Calls `serde_json::Value::get` with a text. It gives the value under that key of
/// an object, and nothing for a missing key or any other kind of value.
#[verifier::external_body]
fn get<'a>(value: &'a serde_json::Value, key: &str) -> (entry: Option<&'a serde_json::Value>)
    ensures
        match entry {
            Some(entry) => {
                &&& json_entries(*value).dom().contains(seq![key@])
                &&& json_entries(*entry) == beneath(json_entries(*value), seq![key@])
            },
            None => beneath(json_entries(*value), seq![key@]) == JsonEntries::empty(),
        },
{
    value.get(key)
}

/// Calls `serde_json::Value::as_f64`, which gives the number that a value is, if it
/// is one; here as its bits.
#[verifier::external_body]
fn number_bits(value: &serde_json::Value) -> (bits: Option<u64>)
    ensures
        bits == number_under(json_entries(*value), Seq::empty()),
{
    value.as_f64().map(|number| number.to_bits())
}

/// Following keys one after another is following them all.
proof fn lemma_beneath(entries: JsonEntries, keys: Seq<Seq<char>>, key: Seq<char>)
    ensures
        beneath(beneath(entries, keys), seq![key]) == beneath(entries, keys.push(key)),
{
    let left = beneath(beneath(entries, keys), seq![key]);
    let right = beneath(entries, keys.push(key));
    assert forall|path: Seq<Seq<char>>| #[trigger] left.dom().contains(path)
        == right.dom().contains(path) by {
        assert(keys + (seq![key] + path) =~= keys.push(key) + path);
    }
    assert forall|path: Seq<Seq<char>>| #[trigger] left.dom().contains(path) implies left[path]
        == right[path] by {
        assert(keys + (seq![key] + path) =~= keys.push(key) + path);
    }
    assert(left =~= right);
}

/// Nothing is beneath a path that leads nowhere.
proof fn lemma_beneath_nothing(entries: JsonEntries, keys: Seq<Seq<char>>, more: Seq<Seq<char>>)
    requires
        beneath(entries, keys) == JsonEntries::empty(),
    ensures
        beneath(entries, keys + more) == JsonEntries::empty(),
{
    let longer = beneath(entries, keys + more);
    assert forall|path: Seq<Seq<char>>| !#[trigger] longer.dom().contains(path) by {
        assert((keys + more) + path =~= keys + (more + path));
        assert(!beneath(entries, keys).dom().contains(more + path));
    }
    assert(longer =~= JsonEntries::empty());
}

/// Follows a dotted path of object keys.
pub fn json_path<'a>(root: &'a serde_json::Value, path: &str) -> (found: Option<
    &'a serde_json::Value,
>)
    ensures
        match found {
            Some(value) => {
                &&& json_entries(*value) == beneath(json_entries(*root), path_keys(path@))
                &&& path_keys(path@).len() > 0 ==> json_entries(*root).dom().contains(
                    path_keys(path@),
                )
            },
            None => {
                &&& path_keys(path@).len() > 0
                &&& beneath(json_entries(*root), path_keys(path@)) == JsonEntries::empty()
            },
        },
{
    let keys = split_path(path);
    let ghost all = path_keys(path@);
    let ghost entries = json_entries(*root);
    let mut value = root;
    let mut i: usize = 0;
    assert(beneath(entries, all.take(0)) =~= entries) by {
        assert forall|path: Seq<Seq<char>>| #[trigger] beneath(entries, all.take(0)).dom().contains(
            path,
        ) == entries.dom().contains(path) by {
            assert(all.take(0) + path =~= path);
        }
        assert forall|path: Seq<Seq<char>>| #[trigger] entries.dom().contains(path) implies beneath(
            entries,
            all.take(0),
        )[path] == entries[path] by {
            assert(all.take(0) + path =~= path);
        }
    }
    while i < keys.len()
        invariant
            i <= keys@.len(),
            texts(keys@) == all,
            all == path_keys(path@),
            entries == json_entries(*root),
            json_entries(*value) == beneath(entries, all.take(i as int)),
            i > 0 ==> entries.dom().contains(all.take(i as int)),
        decreases keys@.len() - i,
    {
        let ghost key = keys@[i as int]@;
        assert(texts(keys@)[i as int] == key);
        proof {
            lemma_beneath(entries, all.take(i as int), key);
            assert(all.take(i as int).push(key) =~= all.take(i + 1));
        }
        match get(value, keys[i].as_str()) {
            Some(entry) => {
                assert(all.take(i as int) + seq![key] =~= all.take(i + 1));
                value = entry;
            },
            None => {
                proof {
                    lemma_beneath_nothing(entries, all.take(i + 1), all.skip(i + 1));
                    assert(all.take(i + 1) + all.skip(i + 1) =~= all);
                }
                return None;
            },
        }
        i += 1;
    }
    assert(all.take(all.len() as int) =~= all);
    Some(value)
}

/// The number that a dotted path of object keys leads to.
pub fn number_at(root: &serde_json::Value, path: &str) -> (bits: Option<u64>)
    ensures
        bits == number_under(json_entries(*root), path_keys(path@)),
{
    let ghost keys = path_keys(path@);
    let ghost entries = json_entries(*root);
    assert(keys + Seq::<Seq<char>>::empty() =~= keys);
    match json_path(root, path) {
        Some(value) => {
            let bits = number_bits(value);
            assert(beneath(entries, keys).dom().contains(Seq::empty()) == entries.dom().contains(
                keys,
            ));
            bits
        },
        None => {
            assert(!beneath(entries, keys).dom().contains(Seq::empty()));
            None
        },
    }
}

/// A path leads where its first part leads, and from there the rest of it; where the first part
/// leads nowhere, so does the whole.
pub proof fn law_a_path_leads_through_its_parts(
    root: &serde_json::Value,
    outer: &str,
    inner: &str,
    path: &str,
    child: Option<&serde_json::Value>,
    found: Option<u64>,
    beyond: Option<u64>,
)
    requires
        path@ == outer@.push('.') + inner@,
        call_ensures(json_path, (root, outer), child),
        call_ensures(number_at, (root, path), found),
        child is Some ==> call_ensures(number_at, (child->Some_0, inner), beyond),
    ensures
        child is Some ==> found == beyond,
        child is None ==> found is None,
{
    law_dots_lead_further_in(outer@, inner@);
    let (first, rest) = (path_keys(outer@), path_keys(inner@));
    let entries = json_entries(*root);
    assert(path_keys(path@) == first + rest);
    assert(beneath(entries, first).dom().contains(rest) == entries.dom().contains(first + rest));
}

/// A path without dots names the key of an object; an empty one leads to the document itself.
pub proof fn law_a_path_without_dots_names_a_key(
    root: &serde_json::Value,
    key: &str,
    found: Option<u64>,
)
    requires
        key@.len() > 0,
        !key@.contains('.'),
        call_ensures(number_at, (root, key), found),
    ensures
        json_entries(*root).dom().contains(seq![key@]) ==> found == json_entries(*root)[seq![key@]],
        !json_entries(*root).dom().contains(seq![key@]) ==> found is None,
{
    law_dots_lead_further_in(key@, Seq::empty());
}

} // verus!
