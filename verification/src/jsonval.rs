//! The boundary to `serde_json`: the `Value` type is declared so that raw
//! JSON can be carried through the daemon protocol opaquely, and the one
//! serialization the reference pagination logic depends on — the encoded size
//! of a reference entry — is named and measured here.

use vstd::prelude::*;

verus! {

#[verifier::external_type_specification]
#[verifier::external_body]
pub struct ExValue(serde_json::Value);

/// The number of bytes of the JSON encoding of a reference entry
/// `{"column":c,"line":l,"snippet":s}`; a function of the three fields alone.
pub uninterp spec fn ref_entry_len(line: u64, column: u64, snippet: Seq<char>) -> nat;

/// Relies on `serde_json::to_vec` over a `serde_json::Map`: the map is
/// ordered, so the encoding — and with it its length — depends only on the
/// entry's fields.
#[verifier::external_body]
pub fn serialized_ref_entry_len(line: u64, column: u64, snippet: &String) -> (n: usize)
    ensures
        n == ref_entry_len(line, column, snippet@),
{
    let mut m = serde_json::Map::new();
    m.insert("line".to_string(), serde_json::Value::from(line));
    m.insert("column".to_string(), serde_json::Value::from(column));
    m.insert("snippet".to_string(), serde_json::Value::from(snippet.clone()));
    match serde_json::to_vec(&serde_json::Value::Object(m)) {
        Ok(bytes) => bytes.len(),
        Err(_) => 0,
    }
}

/// Relies on `std::time::SystemTime::now`: the wall-clock time since the
/// epoch, in milliseconds; zero when the clock reads before the epoch.
#[verifier::external_body]
pub fn now_epoch_ms() -> u64 {
    match std::time::SystemTime::now().duration_since(std::time::UNIX_EPOCH) {
        Ok(duration) => duration.as_millis() as u64,
        Err(_) => 0,
    }
}

} // verus!
