//! Naming of the immutable data files that a write adds to the table.
//!
//! Each data file lives under `data/` and is named by a fresh ULID, so names
//! sort by creation time and never collide in practice.

use crate::text::push_str;
use vstd::prelude::*;

verus! {

/// Whether `c` is a character of the Crockford base-32 alphabet that ULIDs use.
pub open spec fn is_ulid_char(c: char) -> bool {
    ('0' <= c && c <= '9') || ('A' <= c && c <= 'Z' && c != 'I' && c != 'L' && c != 'O' && c != 'U')
}

/// Whether `s` is the text of a ULID: twenty-six Crockford base-32 characters.
pub open spec fn is_ulid_text(s: Seq<char>) -> bool {
    s.len() == 26 && forall|i: int| 0 <= i < s.len() ==> is_ulid_char(#[trigger] s[i])
}

/// The prefix of a data file path: the data directory and a slash.
pub open spec fn data_dir_prefix() -> Seq<char> {
    seq!['d', 'a', 't', 'a', '/']
}

/// The extension of a data file.
pub open spec fn parquet_ext() -> Seq<char> {
    seq!['.', 'p', 'a', 'r', 'q', 'u', 'e', 't']
}

/// A fresh ULID as text, from `ulid::Ulid::new().to_string()`: the crate
/// encodes the 128-bit value as 26 characters of its Crockford base-32
/// alphabet. Which ULID comes out depends on the clock and on chance, so
/// nothing more is stated.
#[verifier::external_body]
fn new_ulid_text() -> (s: String)
    ensures
        is_ulid_text(s@),
{
    ulid::Ulid::new().to_string()
}

/// The path, relative to the table root, of the data file named by `id`:
/// `data/<id>.parquet`.
pub fn data_file_path(id: &str) -> (path: String)
    ensures
        path@ == data_dir_prefix() + id@ + parquet_ext(),
{
    let mut path = String::new();
    let dir = "data/";
    let ext = ".parquet";
    proof {
        reveal_strlit("data/");
        reveal_strlit(".parquet");
    }
    push_str(&mut path, dir);
    push_str(&mut path, id);
    push_str(&mut path, ext);
    path
}

/// The path, relative to the table root, of a new data file:
/// `data/<ULID>.parquet` for a freshly drawn ULID.
pub fn new_data_file_path() -> (path: String)
    ensures
        exists|id: Seq<char>| is_ulid_text(id) && path@ == data_dir_prefix() + id + parquet_ext(),
{
    let id = new_ulid_text();
    let path = data_file_path(id.as_str());
    assert(is_ulid_text(id@) && path@ == data_dir_prefix() + id@ + parquet_ext());
    path
}

} // verus!
