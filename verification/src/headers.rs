//! The message's header map: the `http` crate's read-mostly, multi-valued,
//! case-insensitive map, holding each value as plain bytes.
//!
//! The map is consumed, not built, here: its entries are given a
//! mathematical view — canonical lower-case name and value bytes, in
//! insertion order — and the few methods the library calls are trusted to
//! agree with that view.

use vstd::prelude::*;
use core::str::FromStr;
use crate::text::{eq_ci, lc_chars};

verus! {

#[verifier::external_type_specification]
#[verifier::external_body]
#[verifier::reject_recursive_types(T)]
pub struct ExHeaderMap<T>(http::HeaderMap<T>);

/// The map's entries: canonical (lower-case) name and value bytes, in
/// insertion order.
pub uninterp spec fn header_entries_of(m: http::HeaderMap<Vec<u8>>) -> Seq<(Seq<char>, Seq<u8>)>;

/// Value of the first entry whose name equals `name` up to ASCII case.
pub open spec fn lookup_first(entries: Seq<(Seq<char>, Seq<u8>)>, name: Seq<char>) -> Option<Seq<u8>>
    decreases entries.len(),
{
    if entries.len() == 0 {
        None
    } else if eq_ci(entries[0].0, name) {
        Some(entries[0].1)
    } else {
        lookup_first(entries.drop_first(), name)
    }
}

/// Values of every entry whose name equals `name` up to ASCII case, in
/// insertion order.
pub open spec fn lookup_all(entries: Seq<(Seq<char>, Seq<u8>)>, name: Seq<char>) -> Seq<Seq<u8>>
    decreases entries.len(),
{
    if entries.len() == 0 {
        Seq::empty()
    } else if eq_ci(entries[0].0, name) {
        seq![entries[0].1] + lookup_all(entries.drop_first(), name)
    } else {
        lookup_all(entries.drop_first(), name)
    }
}

/// Relies on `HeaderMap::with_capacity`: a fresh map has no entries.
#[verifier::external_body]
pub fn new_header_map() -> (r: http::HeaderMap<Vec<u8>>)
    ensures
        header_entries_of(r) == Seq::<(Seq<char>, Seq<u8>)>::empty(),
{
    http::HeaderMap::with_capacity(0)
}

/// Relies on `HeaderName::from_str` and `HeaderMap::try_append`: a valid
/// name is canonicalized to lower case and the value is queued after the
/// entries already present; an invalid name, or a map at its capacity,
/// changes nothing and reports failure.
#[verifier::external_body]
pub fn append_header(m: &mut http::HeaderMap<Vec<u8>>, name: &str, value: Vec<u8>) -> (r: bool)
    ensures
        r ==> header_entries_of(*final(m))
            == header_entries_of(*old(m)).push((lc_chars(name@), value@)),
        !r ==> header_entries_of(*final(m)) == header_entries_of(*old(m)),
{
    match http::header::HeaderName::from_str(name) {
        Ok(n) => m.try_append(n, value).is_ok(),
        Err(_) => false,
    }
}

/// Relies on `HeaderMap::get`: the value of the first-inserted entry under
/// the (case-insensitively compared) name, if any.
#[verifier::external_body]
pub fn get_header(m: &http::HeaderMap<Vec<u8>>, name: &str) -> (r: Option<Vec<u8>>)
    ensures
        r matches Some(v) ==> lookup_first(header_entries_of(*m), name@) == Some(v@),
        r is None ==> lookup_first(header_entries_of(*m), name@) is None,
{
    m.get(name).cloned()
}

/// Relies on `HeaderMap::get_all`: every value under the (case-insensitively
/// compared) name, in insertion order.
#[verifier::external_body]
pub fn get_all_headers(m: &http::HeaderMap<Vec<u8>>, name: &str) -> (r: Vec<Vec<u8>>)
    ensures
        r@.map_values(|v: Vec<u8>| v@) == lookup_all(header_entries_of(*m), name@),
{
    m.get_all(name).iter().cloned().collect()
}

} // verus!
