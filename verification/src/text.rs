//! Text handling: the trusted contracts of the few `str` operations the
//! crate relies on, and user-name normalization.

use vstd::prelude::*;

verus! {

/// What `str::trim` returns for a given character sequence.
pub uninterp spec fn trim_of(s: Seq<char>) -> Seq<char>;

/// What `str::to_lowercase` returns for a given character sequence.
pub uninterp spec fn lower_of(s: Seq<char>) -> Seq<char>;

/// Relies on `str::trim`: the result is a function of the characters alone,
/// and trimming a trimmed string changes nothing.
pub assume_specification[ str::trim ](s: &str) -> (r: &str)
    ensures
        r@ == trim_of(s@),
        trim_of(r@) == r@,
;

/// Relies on `str::to_lowercase`: the result is a function of the characters
/// alone; lowercasing is idempotent, maps whitespace to itself (so it
/// commutes with trimming and keeps trimmed and lowercased strings so).
pub assume_specification[ str::to_lowercase ](s: &str) -> (r: String)
    ensures
        r@ == lower_of(s@),
        lower_of(r@) == r@,
        trim_of(r@) == lower_of(trim_of(s@)),
        lower_of(trim_of(r@)) == trim_of(r@),
;

/// Relies on `String::push`: appends exactly one character.
pub assume_specification[ String::push ](s: &mut String, c: char)
    ensures
        final(s)@ == old(s)@.push(c),
;

/// Relies on `String::from_utf8`: succeeds exactly on valid UTF-8 and
/// returns its decoding.
#[verifier::external_body]
pub fn string_from_utf8(v: Vec<u8>) -> (r: Option<String>)
    ensures
        match r {
            Some(s) => vstd::utf8::valid_utf8(v@) && s@ == vstd::utf8::decode_utf8(v@),
            None => !vstd::utf8::valid_utf8(v@),
        },
{
    String::from_utf8(v).ok()
}

/// The normal form of a user name: trimmed, then lowercased.
pub open spec fn norm_of(s: Seq<char>) -> Seq<char> {
    lower_of(trim_of(s))
}

/// Normalize a user name. Normalizing twice changes nothing, which is the
/// sense in which name matching is case- and whitespace-insensitive.
pub fn normalize_name(s: &str) -> (r: String)
    ensures
        r@ == norm_of(s@),
        norm_of(r@) == r@,
{
    let t = s.trim();
    let r = t.to_lowercase();
    proof {
        assert(trim_of(r@) == lower_of(trim_of(t@)));
        assert(trim_of(t@) == t@);
        assert(norm_of(r@) == lower_of(lower_of(t@)));
    }
    r
}

/// Compare two strings for equality by their bytes.
pub fn str_eq(a: &str, b: &str) -> (r: bool)
    ensures
        r == (a@ == b@),
{
    let r = bytes_eq(a.as_bytes(), b.as_bytes());
    proof {
        vstd::utf8::encode_utf8_decode_utf8(a@);
        vstd::utf8::encode_utf8_decode_utf8(b@);
    }
    r
}

/// Compare two byte slices for equality.
pub fn bytes_eq(a: &[u8], b: &[u8]) -> (r: bool)
    ensures
        r == (a@ == b@),
{
    if a.len() != b.len() {
        return false;
    }
    let n = a.len();
    let mut i: usize = 0;
    while i < n
        invariant
            n == a@.len() == b@.len(),
            i <= n,
            forall|j: int| 0 <= j < i ==> a@[j] == b@[j],
        decreases n - i,
    {
        if a[i] != b[i] {
            return false;
        }
        i += 1;
    }
    proof {
        assert(a@ =~= b@);
    }
    true
}

} // verus!
