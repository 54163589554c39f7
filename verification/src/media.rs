//! Structured content types: type, subtype and parameters, parsed from a
//! `Content-Type` header's text by the MIME parser.

use vstd::prelude::*;
use vstd::string::StrSliceExecFns;
use crate::text::{eq_ci, lc_code};

verus! {

/// Mathematical shape of a parsed media type.
pub ghost struct MimeModel {
    pub top: Seq<char>,
    pub sub: Seq<char>,
    pub params: Seq<(Seq<char>, Seq<char>)>,
}

/// What the MIME parser makes of a text: type, subtype and parameter pairs
/// in written order, or nothing when the text is not a media type.
pub uninterp spec fn mime_parse_of(s: Seq<char>) -> Option<MimeModel>;

/// A parsed media type: the type and subtype tokens and the parameter pairs,
/// as the parser handed them out.
pub struct MimeType {
    top: String,
    sub: String,
    params: Vec<(String, String)>,
}

/// First value among `params` whose name equals `name` up to ASCII case.
pub open spec fn param_lookup(params: Seq<(Seq<char>, Seq<char>)>, name: Seq<char>) -> Option<Seq<char>>
    decreases params.len(),
{
    if params.len() == 0 {
        None
    } else if eq_ci(params[0].0, name) {
        Some(params[0].1)
    } else {
        param_lookup(params.drop_first(), name)
    }
}

/// Relies on the MIME parser (`str::parse::<mime::Mime>`) and its `type_`,
/// `subtype` and `params` accessors: whether a text parses, and the structure
/// it parses to, depend on the text alone.
#[verifier::external_body]
pub fn parse_mime(s: &str) -> (r: Option<MimeType>)
    ensures
        r is Some <==> mime_parse_of(s@) is Some,
        r matches Some(m) ==> Some(m.model()) == mime_parse_of(s@),
{
    match s.parse::<mime::Mime>() {
        Ok(mt) => Some(
            MimeType {
                top: mt.type_().as_str().to_string(),
                sub: mt.subtype().as_str().to_string(),
                params: mt.params().map(|p| (p.0.as_str().to_string(), p.1.as_str().to_string())).collect(),
            },
        ),
        Err(_) => None,
    }
}

impl MimeType {
    /// The parsed structure this value carries.
    pub closed spec fn model(self) -> MimeModel {
        MimeModel {
            top: self.top@,
            sub: self.sub@,
            params: self.params@.map_values(|p: (String, String)| (p.0@, p.1@)),
        }
    }

    /// The type token, e.g. `application`.
    pub fn type_(&self) -> (r: &str)
        ensures
            r@ == self.model().top,
    {
        self.top.as_str()
    }

    /// The subtype token, e.g. `json`.
    pub fn subtype(&self) -> (r: &str)
        ensures
            r@ == self.model().sub,
    {
        self.sub.as_str()
    }

    /// First parameter value under `name`, compared up to ASCII case.
    pub fn get_param(&self, name: &str) -> (r: Option<&str>)
        ensures
            match r {
                Some(v) => param_lookup(self.model().params, name@) == Some(v@),
                None => param_lookup(self.model().params, name@) is None,
            },
    {
        let mut i: usize = 0;
        proof {
            assert(self.model().params.skip(0) =~= self.model().params);
        }
        while i < self.params.len()
            invariant
                0 <= i <= self.params@.len(),
                param_lookup(self.model().params, name@)
                    == param_lookup(self.model().params.skip(i as int), name@),
        decreases self.params@.len() - i,
        {
            let k = self.params[i].0.as_str();
            if str_eq_ci(k, name) {
                assert(self.model().params.skip(i as int)[0] == (k@, self.params@[i as int].1@));
                return Some(self.params[i].1.as_str());
            }
            proof {
                assert(self.model().params.skip(i as int).drop_first()
                    =~= self.model().params.skip(i + 1 as int));
            }
            i += 1;
        }
        proof {
            assert(self.model().params.skip(i as int) =~= Seq::<(Seq<char>, Seq<char>)>::empty());
        }
        None
    }
}

/// ASCII-case-insensitive comparison of two strings, character by character.
pub fn str_eq_ci(a: &str, b: &str) -> (r: bool)
    ensures
        r == eq_ci(a@, b@),
{
    let n = a.unicode_len();
    if n != b.unicode_len() {
        return false;
    }
    let mut i: usize = 0;
    while i < n
        invariant
            0 <= i <= n,
            n == a@.len(),
            n == b@.len(),
            forall|j: int| 0 <= j < i ==> lc_code(a@[j]) == lc_code(#[trigger] b@[j]),
        decreases n - i,
    {
        let xa = a.get_char(i) as u32;
        let xb = b.get_char(i) as u32;
        let la: u32 = if 65 <= xa && xa <= 90 {
            xa + 32
        } else {
            xa
        };
        let lb: u32 = if 65 <= xb && xb <= 90 {
            xb + 32
        } else {
            xb
        };
        if la != lb {
            assert(lc_code(a@[i as int]) != lc_code(b@[i as int]));
            return false;
        }
        i += 1;
    }
    true
}

} // verus!
