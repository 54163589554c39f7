//! Character sets resolved from a WHATWG label, with strict decoding.
//!
//! A charset is carried as plain values: the label it was resolved from, the
//! registry's canonical name, and a by-value UTF-8 tag for the fast path.
//! Resolution and non-UTF-8 decoding are the encoding registry's work; UTF-8
//! decoding is specified exactly against vstd's UTF-8 model.

use vstd::prelude::*;
use vstd::utf8::{valid_utf8, decode_utf8};
use crate::text::utf8_to_string;

verus! {

/// Canonical name of the encoding a WHATWG label resolves to, if any.
pub uninterp spec fn charset_name_of(label: Seq<char>) -> Option<Seq<char>>;

/// Text spelled by `bytes` under the encoding `label` resolves to, decoded
/// strictly; nothing when the label resolves to no encoding or some byte
/// cannot be decoded.
pub uninterp spec fn charset_decode_of(label: Seq<char>, bytes: Seq<u8>) -> Option<Seq<char>>;

/// Relies on the encoding registry's `encoding_from_whatwg_label` and
/// `Encoding::name`: which encoding a label names, and what that encoding is
/// called, depend on the label alone.
#[verifier::external_body]
fn whatwg_name(label: &str) -> (r: Option<String>)
    ensures
        r is Some <==> charset_name_of(label@) is Some,
        r matches Some(s) ==> charset_name_of(label@) == Some(s@),
{
    match encoding::label::encoding_from_whatwg_label(label) {
        Some(enc) => Some(enc.name().to_string()),
        None => None,
    }
}

/// Relies on the encoding registry's `encoding_from_whatwg_label` and
/// `Encoding::decode` with strict trapping: the decoded text depends on the
/// label and the bytes alone, and an unresolvable label or an untranslatable
/// byte yields nothing.
#[verifier::external_body]
fn whatwg_decode(label: &str, bytes: &Vec<u8>) -> (r: Option<String>)
    ensures
        r is Some <==> charset_decode_of(label@, bytes@) is Some,
        r matches Some(s) ==> charset_decode_of(label@, bytes@) == Some(s@),
        charset_name_of(label@) is None ==> r is None,
{
    match encoding::label::encoding_from_whatwg_label(label) {
        Some(enc) => match enc.decode(bytes.as_slice(), encoding::DecoderTrap::Strict) {
            Ok(s) => Some(s),
            Err(_) => None,
        },
        None => None,
    }
}

/// A resolved character set, compared by value.
pub struct Charset {
    label: String,
    name: String,
    utf8: bool,
}

impl Charset {
    /// The label this charset was resolved from.
    pub closed spec fn label_spec(self) -> Seq<char> {
        self.label@
    }

    /// The registry's canonical name for this charset.
    pub closed spec fn name_spec(self) -> Seq<char> {
        self.name@
    }

    /// Whether this charset takes the UTF-8 fast path.
    pub closed spec fn is_utf8_spec(self) -> bool {
        self.utf8
    }

    /// What `decode` yields: strict UTF-8 on the fast path, otherwise the
    /// registry's strict decoding under this charset's label.
    pub open spec fn decode_spec(self, b: Seq<u8>) -> Option<Seq<char>> {
        if self.is_utf8_spec() {
            if valid_utf8(b) {
                Some(decode_utf8(b))
            } else {
                None
            }
        } else {
            charset_decode_of(self.label_spec(), b)
        }
    }

    /// The default charset: UTF-8.
    pub fn utf8() -> (r: Charset)
        ensures
            r.label_spec() == "utf-8"@,
            r.name_spec() == "utf-8"@,
            r.is_utf8_spec(),
    {
        Charset { label: "utf-8".to_owned(), name: "utf-8".to_owned(), utf8: true }
    }

    /// Resolves a label against the charset registry. Succeeds exactly when
    /// the registry knows the label; the UTF-8 tag is set by comparing the
    /// canonical name against `"utf-8"`, by value.
    pub fn resolve(label: &str) -> (r: Option<Charset>)
        ensures
            r is Some <==> charset_name_of(label@) is Some,
            r matches Some(cs) ==> {
                &&& cs.label_spec() == label@
                &&& Some(cs.name_spec()) == charset_name_of(label@)
                &&& (cs.is_utf8_spec() <==> cs.name_spec() == "utf-8"@)
            },
    {
        match whatwg_name(label) {
            Some(name) => {
                let tag = "utf-8".to_owned();
                let utf8 = name == tag;
                Some(Charset { label: label.to_owned(), name, utf8 })
            },
            None => None,
        }
    }

    /// The canonical name, as the registry spells it.
    pub fn name(&self) -> (r: &str)
        ensures
            r@ == self.name_spec(),
    {
        self.name.as_str()
    }

    /// Whether this charset is UTF-8.
    pub fn is_utf8(&self) -> (r: bool)
        ensures
            r == self.is_utf8_spec(),
    {
        self.utf8
    }

    /// Strictly decodes `bytes` under this charset.
    pub fn decode(&self, bytes: &Vec<u8>) -> (r: Option<String>)
        ensures
            r is Some <==> self.decode_spec(bytes@) is Some,
            r matches Some(s) ==> Some(s@) == self.decode_spec(bytes@),
    {
        if self.utf8 {
            utf8_to_string(bytes)
        } else {
            whatwg_decode(self.label.as_str(), bytes)
        }
    }
}

impl Clone for Charset {
    fn clone(&self) -> (r: Charset)
        ensures
            r.label_spec() == self.label_spec(),
            r.name_spec() == self.name_spec(),
            r.is_utf8_spec() == self.is_utf8_spec(),
    {
        Charset { label: self.label.clone(), name: self.name.clone(), utf8: self.utf8 }
    }
}

} // verus!
