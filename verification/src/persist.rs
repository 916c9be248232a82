//! The snapshot that is left in the cache file when a walk fails: the header
//! followed by the totals reached so far, as pretty-printed JSON.

use vstd::prelude::*;
use crate::text::{joined, push_lines, push_str, string_of, texts};
use crate::walker::Accumulator;

verus! {

/// The error type of `serde_json`; nothing is known of its values.
#[verifier::external_type_specification]
#[verifier::external_body]
pub struct ExJsonError(serde_json::Error);

/// The pretty-printed JSON text of the object whose members have the names
/// `keys` and the numbers `values`.
pub uninterp spec fn pretty_json_object(keys: Seq<Seq<char>>, values: Seq<u64>) -> Seq<char>;

/// Why no snapshot could be made.
#[derive(Debug, PartialEq, Eq)]
pub enum PersistError {
    /// The totals could not be written as JSON.
    Serialize,
}

/// The names under which a snapshot holds the totals.
pub open spec fn snapshot_keys() -> Seq<Seq<char>> {
    seq!["additions"@, "deletions"@, "authoredCommits"@]
}

/// The content of a snapshot: every header line followed by a newline, then
/// the state.
pub open spec fn snapshot_of(header: Seq<Seq<char>>, state: Seq<char>) -> Seq<char> {
    joined(header) + state
}

/// Calls `serde_json::to_string_pretty` on the JSON object that maps each of
/// `keys` to the number at the same place in `values`: the result is that
/// object's pretty-printed text. The call succeeds: the serializer fails only
/// where its writer does or a key is no string, and here it writes text keys
/// and whole numbers into a byte vector.
#[verifier::external_body]
fn pretty_object(keys: &Vec<String>, values: &Vec<u64>) -> (r: Result<String, serde_json::Error>)
    requires
        keys@.len() == values@.len(),
    ensures
        r is Ok,
        r matches Ok(text) ==> text@ == pretty_json_object(texts(keys@), values@),
{
    let mut members = serde_json::Map::new();
    for (key, value) in keys.iter().zip(values.iter()) {
        members.insert(key.clone(), serde_json::Value::from(*value));
    }
    serde_json::to_string_pretty(&serde_json::Value::Object(members))
}

/// The content of a snapshot with the given state.
pub fn snapshot(header: &Vec<String>, state: &str) -> (r: String)
    ensures
        r@ == snapshot_of(texts(header@), state@),
{
    let mut out: Vec<char> = Vec::new();
    push_lines(&mut out, header);
    push_str(&mut out, state);
    assert(Seq::<char>::empty() + joined(texts(header@)) == joined(texts(header@)));
    string_of(&out)
}

/// The content that replaces the cache file when a walk fails with `totals`:
/// the header, then the totals as pretty-printed JSON.
pub fn force_close_file(header: &Vec<String>, totals: Accumulator) -> (r: Result<
    String,
    PersistError,
>)
    ensures
        r matches Ok(content) && content@ == snapshot_of(
            texts(header@),
            pretty_json_object(
                snapshot_keys(),
                seq![totals.additions, totals.deletions, totals.authored_commits],
            ),
        ),
{
    let mut keys: Vec<String> = Vec::new();
    keys.push("additions".to_owned());
    keys.push("deletions".to_owned());
    keys.push("authoredCommits".to_owned());
    let mut values: Vec<u64> = Vec::new();
    values.push(totals.additions);
    values.push(totals.deletions);
    values.push(totals.authored_commits);
    assert(texts(keys@) == snapshot_keys());
    assert(values@ == seq![totals.additions, totals.deletions, totals.authored_commits]);
    closed_file(header, pretty_object(&keys, &values))
}

/// The content that replaces the cache file, from what writing the state as
/// JSON gave: with the state's text it is the snapshot with that state,
/// without it there is no content and the error says so.
pub fn closed_file(header: &Vec<String>, saved: Result<String, serde_json::Error>) -> (r: Result<
    String,
    PersistError,
>)
    ensures
        match saved {
            Ok(state) => r matches Ok(content) && content@ == snapshot_of(texts(header@), state@),
            Err(_) => r matches Err(PersistError::Serialize),
        },
{
    match saved {
        Ok(state) => Ok(snapshot(header, state.as_str())),
        Err(_) => Err(PersistError::Serialize),
    }
}

} // verus!
