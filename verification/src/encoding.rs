//! Byte encodings at the storage boundary: lowercase hex, standard base64,
//! and zlib compression, each behind a trusted contract.

use vstd::prelude::*;
use base64::Engine;
use std::io::Write;
use std::io::Read;

verus! {

/// The sixteen lowercase hex digits.
pub open spec fn hex_digit(v: int) -> char {
    if v == 0 {
        '0'
    } else if v == 1 {
        '1'
    } else if v == 2 {
        '2'
    } else if v == 3 {
        '3'
    } else if v == 4 {
        '4'
    } else if v == 5 {
        '5'
    } else if v == 6 {
        '6'
    } else if v == 7 {
        '7'
    } else if v == 8 {
        '8'
    } else if v == 9 {
        '9'
    } else if v == 10 {
        'a'
    } else if v == 11 {
        'b'
    } else if v == 12 {
        'c'
    } else if v == 13 {
        'd'
    } else if v == 14 {
        'e'
    } else {
        'f'
    }
}

/// The nibble a hex digit stands for.
pub open spec fn hex_digit_val(c: char) -> int {
    if c == '0' {
        0
    } else if c == '1' {
        1
    } else if c == '2' {
        2
    } else if c == '3' {
        3
    } else if c == '4' {
        4
    } else if c == '5' {
        5
    } else if c == '6' {
        6
    } else if c == '7' {
        7
    } else if c == '8' {
        8
    } else if c == '9' {
        9
    } else if c == 'a' {
        10
    } else if c == 'b' {
        11
    } else if c == 'c' {
        12
    } else if c == 'd' {
        13
    } else if c == 'e' {
        14
    } else {
        15
    }
}

pub proof fn lemma_hex_digit_inverse(v: int)
    requires
        0 <= v < 16,
    ensures
        hex_digit_val(hex_digit(v)) == v,
{
}

/// Hex encoding is injective: equal hex strings come from equal bytes.
pub proof fn lemma_hex_of_injective(a: Seq<u8>, b: Seq<u8>)
    requires
        hex_of(a) == hex_of(b),
    ensures
        a == b,
    decreases a.len(),
{
    lemma_hex_of_len(a);
    lemma_hex_of_len(b);
    if a.len() == 0 {
        assert(a =~= b);
    } else {
        assert(hex_of(a)[0] == hex_digit(a[0] as int / 16));
        assert(hex_of(a)[1] == hex_digit(a[0] as int % 16));
        assert(hex_of(b)[0] == hex_digit(b[0] as int / 16));
        assert(hex_of(b)[1] == hex_digit(b[0] as int % 16));
        lemma_hex_digit_inverse(a[0] as int / 16);
        lemma_hex_digit_inverse(a[0] as int % 16);
        lemma_hex_digit_inverse(b[0] as int / 16);
        lemma_hex_digit_inverse(b[0] as int % 16);
        assert(a[0] == b[0]);
        assert(hex_of(a.drop_first()) =~= hex_of(b.drop_first())) by {
            assert forall|k: int| 0 <= k < hex_of(a.drop_first()).len() implies hex_of(
                a.drop_first(),
            )[k] == hex_of(b.drop_first())[k] by {
                assert(hex_of(a)[2 + k] == hex_of(a.drop_first())[k]);
                assert(hex_of(b)[2 + k] == hex_of(b.drop_first())[k]);
            }
        }
        lemma_hex_of_injective(a.drop_first(), b.drop_first());
        assert(a =~= seq![a[0]] + a.drop_first());
        assert(b =~= seq![b[0]] + b.drop_first());
    }
}

/// Lowercase hex encoding of a byte sequence: two digits per byte,
/// high nibble first.
pub open spec fn hex_of(b: Seq<u8>) -> Seq<char>
    decreases b.len(),
{
    if b.len() == 0 {
        Seq::<char>::empty()
    } else {
        seq![hex_digit(b[0] as int / 16), hex_digit(b[0] as int % 16)] + hex_of(b.drop_first())
    }
}

pub broadcast proof fn lemma_hex_of_len(b: Seq<u8>)
    ensures
        #[trigger] hex_of(b).len() == 2 * b.len(),
    decreases b.len(),
{
    if b.len() > 0 {
        lemma_hex_of_len(b.drop_first());
    }
}

pub broadcast proof fn lemma_hex_of_ascii(b: Seq<u8>)
    ensures
        vstd::utf8::is_ascii_chars(#[trigger] hex_of(b)),
    decreases b.len(),
{
    if b.len() > 0 {
        lemma_hex_of_ascii(b.drop_first());
        assert forall|i: int| 0 <= i < hex_of(b).len() implies '\0' <= #[trigger] hex_of(b)[i]
            <= '\u{7f}' by {
            if i >= 2 {
                assert(hex_of(b)[i] == hex_of(b.drop_first())[i - 2]);
            }
        }
    }
}

/// Lowercase hex encoding, two digits per byte, proved against `hex_of`.
pub fn hex_encode(b: &[u8]) -> (r: String)
    ensures
        r@ == hex_of(b@),
{
    let n = b.len();
    let mut out = String::new();
    let mut i: usize = 0;
    proof {
        assert(b@.skip(0) =~= b@);
    }
    while i < n
        invariant
            n == b@.len(),
            i <= n,
            hex_of(b@) =~= out@ + hex_of(b@.skip(i as int)),
        decreases n - i,
    {
        let byte = b[i];
        let hi = byte / 16;
        let lo = byte % 16;
        proof {
            assert(b@.skip(i as int)[0] == byte);
            assert(b@.skip(i as int).drop_first() =~= b@.skip(i + 1));
        }
        out.push(hex_digit_exec(hi));
        out.push(hex_digit_exec(lo));
        proof {
            assert(hex_of(b@) =~= out@ + hex_of(b@.skip(i + 1)));
        }
        i += 1;
    }
    proof {
        assert(b@.skip(n as int) =~= Seq::<u8>::empty());
        assert(out@ + hex_of(b@.skip(n as int)) =~= out@);
    }
    out
}

/// One lowercase hex digit.
fn hex_digit_exec(v: u8) -> (r: char)
    requires
        v < 16,
    ensures
        r == hex_digit(v as int),
{
    if v == 0 {
        '0'
    } else if v == 1 {
        '1'
    } else if v == 2 {
        '2'
    } else if v == 3 {
        '3'
    } else if v == 4 {
        '4'
    } else if v == 5 {
        '5'
    } else if v == 6 {
        '6'
    } else if v == 7 {
        '7'
    } else if v == 8 {
        '8'
    } else if v == 9 {
        '9'
    } else if v == 10 {
        'a'
    } else if v == 11 {
        'b'
    } else if v == 12 {
        'c'
    } else if v == 13 {
        'd'
    } else if v == 14 {
        'e'
    } else {
        'f'
    }
}

/// What base64 standard encoding returns for a byte sequence.
pub uninterp spec fn b64_of(b: Seq<u8>) -> Seq<char>;

/// What base64 standard decoding returns for a character sequence:
/// the bytes, or nothing when the text is not valid base64.
pub uninterp spec fn b64_decode_of(s: Seq<char>) -> Option<Seq<u8>>;

/// Relies on `base64::engine::general_purpose::STANDARD.encode`: padded
/// standard base64, four characters per three bytes, and decoding inverts it.
#[verifier::external_body]
pub fn b64_encode(b: &[u8]) -> (r: String)
    ensures
        r@ == b64_of(b@),
        b64_decode_of(r@) == Some(b@),
        r@.len() == ((b@.len() + 2) / 3) * 4,
{
    base64::engine::general_purpose::STANDARD.encode(b)
}

/// Relies on `base64::engine::general_purpose::STANDARD.decode`: succeeds
/// exactly on valid standard base64.
#[verifier::external_body]
pub fn b64_decode(s: &str) -> (r: Option<Vec<u8>>)
    ensures
        match r {
            Some(v) => b64_decode_of(s@) == Some(v@),
            None => b64_decode_of(s@) is None,
        },
{
    base64::engine::general_purpose::STANDARD.decode(s).ok()
}

/// What zlib decompression returns for a byte sequence: the inflated
/// bytes, or nothing when the stream is not a valid zlib stream.
pub uninterp spec fn inflate_of(b: Seq<u8>) -> Option<Seq<u8>>;

/// Relies on `flate2::write::ZlibEncoder`: the compressed stream inflates
/// back to the input.
#[verifier::external_body]
pub fn zlib_compress(data: &[u8]) -> (r: Option<Vec<u8>>)
    ensures
        match r {
            Some(v) => inflate_of(v@) == Some(data@),
            None => true,
        },
{
    let mut encoder = flate2::write::ZlibEncoder::new(Vec::new(), flate2::Compression::default());
    if encoder.write_all(data).is_err() {
        return None;
    }
    encoder.finish().ok()
}

/// Relies on `flate2::read::ZlibDecoder`: succeeds exactly on valid zlib
/// streams and returns the inflated bytes.
#[verifier::external_body]
pub fn zlib_decompress(data: &[u8]) -> (r: Option<Vec<u8>>)
    ensures
        match r {
            Some(v) => inflate_of(data@) == Some(v@),
            None => inflate_of(data@) is None,
        },
{
    let mut decoder = flate2::read::ZlibDecoder::new(data);
    let mut out = Vec::new();
    decoder.read_to_end(&mut out).ok().map(|_| out)
}

} // verus!
