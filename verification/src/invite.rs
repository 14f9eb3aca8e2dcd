//! The invitation codec: the interleaved harvester that turns a
//! 14-character passphrase and two user names into an 18-character secret,
//! the canonical JSON form of the invite payload, and envelope encryption
//! with Argon2 and XChaCha20-Poly1305.

use vstd::prelude::*;
use crate::crypto::{
    aead_open_of,
    derive_key,
    encrypt_with_key,
    decrypt_with_key,
    kdf_of,
    now_unix,
    opens_to,
    rand_bytes_16,
    sha256_hex,
    sha256_of,
};
use crate::encoding::{b64_decode, b64_decode_of, b64_encode, hex_of};
use crate::errors::InviteError;
use crate::json::{
    check_lit,
    dec_rep,
    esc,
    jstr,
    lemma_eq_subrange,
    lemma_parse_string_rt,
    lemma_parse_u64_rt,
    match_lit,
    parse_string_at,
    parse_u64_at,
    spec_parse_string,
    spec_parse_u64,
    write_json_string,
    write_u64,
    push_bytes,
};
use crate::text::{norm_of, normalize_name, string_from_utf8};
use vstd::string::StrSliceExecFns;
use vstd::string::StringSliceAdditionalSpecFns;
use vstd::string::StringExecFns;
use vstd::string::StringExecFnsIsAscii;

verus! {

/// A public invite envelope: salt, nonce and ciphertext, all base64.
/// Safe to publish; it names nobody.
#[derive(Debug, Clone)]
pub struct EncryptedInvite {
    /// Base64 of the 16-byte Argon2 salt.
    pub salt: String,
    /// Base64 of the XChaCha20 nonce.
    pub nonce: String,
    /// Base64 of the sealed payload.
    pub ciphertext: String,
}

/// The spec-level shape of an invite envelope.
pub ghost struct InviteView {
    pub salt: Seq<char>,
    pub nonce: Seq<char>,
    pub ciphertext: Seq<char>,
}

impl View for EncryptedInvite {
    type V = InviteView;

    open spec fn view(&self) -> InviteView {
        InviteView { salt: self.salt@, nonce: self.nonce@, ciphertext: self.ciphertext@ }
    }
}

/// The secret payload of an invite.
#[derive(Debug, Clone)]
pub struct InvitePayload {
    /// The normalized name the invite is meant for.
    pub target_username: String,
    /// The secret data: an address or multiaddress string.
    pub ip_address: String,
    /// Unix time after which the invite is stale.
    pub ttl_timestamp: u64,
}

// ============================================================================
// The interleaved harvester
// ============================================================================

/// Sum of the character codes of an ASCII slice of the passphrase.
pub open spec fn char_sum(s: Seq<char>, lo: int, hi: int) -> int
    decreases hi - lo,
{
    if lo >= hi {
        0
    } else {
        (s[lo] as u8) + char_sum(s, lo + 1, hi)
    }
}

/// The 64-character pool: hex of the SHA-256 of the two normalized names.
pub open spec fn harvest_pool(a: Seq<char>, b: Seq<char>) -> Seq<char> {
    hex_of(sha256_of(vstd::utf8::encode_utf8(norm_of(a) + norm_of(b))))
}

/// The pool character harvested for one chunk of the passphrase.
pub open spec fn harvest_pick(pw: Seq<char>, lo: int, hi: int, pool: Seq<char>) -> char {
    pool[char_sum(pw, lo, hi) % 64]
}

/// The 18-character harvested key: passphrase chunks of lengths 4, 3, 4, 3
/// interleaved with one pool character after each chunk.
pub open spec fn harvest_spec(pw: Seq<char>, a: Seq<char>, b: Seq<char>) -> Seq<char> {
    let pool = harvest_pool(a, b);
    pw.subrange(0, 4) + seq![harvest_pick(pw, 0, 4, pool)] + pw.subrange(4, 7) + seq![
        harvest_pick(pw, 4, 7, pool),
    ] + pw.subrange(7, 11) + seq![harvest_pick(pw, 7, 11, pool)] + pw.subrange(11, 14) + seq![
        harvest_pick(pw, 11, 14, pool),
    ]
}

/// Whether a passphrase is acceptable: exactly 14 ASCII characters.
pub open spec fn passphrase_ok(pw: &str) -> bool {
    vstd::string::is_ascii(pw) && pw@.len() == 14
}

/// The key harvested from a passphrase and two names, wiped from the
/// stored string only when the process ends.
pub struct HarvestedKey(String);

impl View for HarvestedKey {
    type V = Seq<char>;

    closed spec fn view(&self) -> Seq<char> {
        self.0@
    }
}

impl HarvestedKey {
    /// An 18-character ASCII key.
    pub open spec fn wf(&self) -> bool {
        self@.len() == 18 && vstd::utf8::is_ascii_chars(self@)
    }

    /// The key bytes fed to the key derivation.
    pub fn as_bytes(&self) -> (r: &[u8])
        ensures
            r@ == vstd::utf8::encode_utf8(self@),
    {
        self.0.as_str().as_bytes()
    }

    /// The key as text.
    pub fn as_str(&self) -> (r: &str)
        ensures
            r@ == self@,
    {
        self.0.as_str()
    }
}

/// Sum the character codes of `s[lo..hi]`.
fn sum_codes(s: &str, lo: usize, hi: usize) -> (r: u32)
    requires
        vstd::string::is_ascii(s),
        lo <= hi <= s@.len(),
        hi - lo <= 16,
    ensures
        r == char_sum(s@, lo as int, hi as int),
        r <= 16 * 255,
{
    let mut acc: u32 = 0;
    let mut k: usize = hi;
    while k > lo
        invariant
            vstd::string::is_ascii(s),
            lo <= k <= hi <= s@.len(),
            hi - lo <= 16,
            acc == char_sum(s@, k as int, hi as int),
            acc <= (hi - k) * 255,
        decreases k,
    {
        k -= 1;
        let b = s.get_ascii(k);
        proof {
            broadcast use vstd::string::is_ascii_spec_bytes;

        }
        acc = acc + b as u32;
    }
    acc
}

/// Harvest the 18-character key for a passphrase, an inviter name and an
/// invitee name. Name matching is normalized, so only the trimmed,
/// lowercased names matter. Fails exactly when the passphrase is not 14
/// ASCII characters.
pub fn harvest_key(password: &str, inviter: &str, invitee: &str) -> (r: Result<
    HarvestedKey,
    InviteError,
>)
    ensures
        match r {
            Ok(k) => passphrase_ok(password) && k@ == harvest_spec(password@, inviter@, invitee@)
                && k.wf(),
            Err(e) => e == InviteError::BadLength && !passphrase_ok(password),
        },
{
    if !password.is_ascii() || password.unicode_len() != 14 {
        return Err(InviteError::BadLength);
    }
    let a = normalize_name(inviter);
    let b = normalize_name(invitee);
    let seed = a.concat(b.as_str());
    let pool = sha256_hex(seed.as_str().as_bytes());
    proof {
        assert(pool@ == harvest_pool(inviter@, invitee@));
        crate::encoding::lemma_hex_of_ascii(sha256_of(vstd::utf8::encode_utf8(seed@)));
    }
    let i1 = (sum_codes(password, 0, 4) % 64) as usize;
    let i2 = (sum_codes(password, 4, 7) % 64) as usize;
    let i3 = (sum_codes(password, 7, 11) % 64) as usize;
    let i4 = (sum_codes(password, 11, 14) % 64) as usize;
    let mut out = String::new();
    out.append(password.substring_ascii(0, 4));
    out.push(pool.as_str().get_char(i1));
    out.append(password.substring_ascii(4, 7));
    out.push(pool.as_str().get_char(i2));
    out.append(password.substring_ascii(7, 11));
    out.push(pool.as_str().get_char(i3));
    out.append(password.substring_ascii(11, 14));
    out.push(pool.as_str().get_char(i4));
    proof {
        assert(out@ =~= harvest_spec(password@, inviter@, invitee@));
        assert(vstd::utf8::is_ascii_chars(out@)) by {
            assert(vstd::utf8::is_ascii_chars(password@));
            assert(vstd::utf8::is_ascii_chars(pool@));
        }
    }
    Ok(HarvestedKey(out))
}


// ============================================================================
// The payload wire form
// ============================================================================

/// The literal `{"target_username":` of the payload schema.
pub open spec fn lit_target() -> Seq<u8> {
    seq![123u8, 34u8, 116u8, 97u8, 114u8, 103u8, 101u8, 116u8, 95u8, 117u8, 115u8, 101u8, 114u8, 110u8, 97u8, 109u8, 101u8, 34u8, 58u8]
}

fn lit_target_vec() -> (r: Vec<u8>)
    ensures
        r@ == lit_target(),
{
    let mut v: Vec<u8> = Vec::new();
    v.push(123u8);
    v.push(34u8);
    v.push(116u8);
    v.push(97u8);
    v.push(114u8);
    v.push(103u8);
    v.push(101u8);
    v.push(116u8);
    v.push(95u8);
    v.push(117u8);
    v.push(115u8);
    v.push(101u8);
    v.push(114u8);
    v.push(110u8);
    v.push(97u8);
    v.push(109u8);
    v.push(101u8);
    v.push(34u8);
    v.push(58u8);
    proof {
        assert(v@ =~= lit_target());
    }
    v
}

/// The literal `,"ip_address":` of the payload schema.
pub open spec fn lit_ip() -> Seq<u8> {
    seq![44u8, 34u8, 105u8, 112u8, 95u8, 97u8, 100u8, 100u8, 114u8, 101u8, 115u8, 115u8, 34u8, 58u8]
}

fn lit_ip_vec() -> (r: Vec<u8>)
    ensures
        r@ == lit_ip(),
{
    let mut v: Vec<u8> = Vec::new();
    v.push(44u8);
    v.push(34u8);
    v.push(105u8);
    v.push(112u8);
    v.push(95u8);
    v.push(97u8);
    v.push(100u8);
    v.push(100u8);
    v.push(114u8);
    v.push(101u8);
    v.push(115u8);
    v.push(115u8);
    v.push(34u8);
    v.push(58u8);
    proof {
        assert(v@ =~= lit_ip());
    }
    v
}

/// The literal `,"ttl_timestamp":` of the payload schema.
pub open spec fn lit_ttl() -> Seq<u8> {
    seq![44u8, 34u8, 116u8, 116u8, 108u8, 95u8, 116u8, 105u8, 109u8, 101u8, 115u8, 116u8, 97u8, 109u8, 112u8, 34u8, 58u8]
}

fn lit_ttl_vec() -> (r: Vec<u8>)
    ensures
        r@ == lit_ttl(),
{
    let mut v: Vec<u8> = Vec::new();
    v.push(44u8);
    v.push(34u8);
    v.push(116u8);
    v.push(116u8);
    v.push(108u8);
    v.push(95u8);
    v.push(116u8);
    v.push(105u8);
    v.push(109u8);
    v.push(101u8);
    v.push(115u8);
    v.push(116u8);
    v.push(97u8);
    v.push(109u8);
    v.push(112u8);
    v.push(34u8);
    v.push(58u8);
    proof {
        assert(v@ =~= lit_ttl());
    }
    v
}


/// The canonical JSON encoding of an invite payload, over the UTF-8 bytes
/// of its two strings.
pub open spec fn payload_enc(t: Seq<u8>, ip: Seq<u8>, ttl: u64) -> Seq<u8> {
    lit_target() + jstr(t) + lit_ip() + jstr(ip) + lit_ttl() + dec_rep(ttl) + seq![125u8]
}

/// Parse the canonical JSON form of an invite payload. Accepts exactly the
/// writer's output: fixed key order, no spaces, canonical escapes.
pub open spec fn spec_parse_payload(s: Seq<u8>) -> Option<(Seq<char>, Seq<char>, u64)> {
    if !match_lit(s, 0, lit_target()) {
        None
    } else {
        match spec_parse_string(s, lit_target().len() as int) {
            None => None,
            Some((t, i2)) => {
                if !match_lit(s, i2, lit_ip()) {
                    None
                } else {
                    match spec_parse_string(s, i2 + lit_ip().len()) {
                        None => None,
                        Some((ip, i3)) => {
                            if !match_lit(s, i3, lit_ttl()) {
                                None
                            } else {
                                match spec_parse_u64(s, i3 + lit_ttl().len()) {
                                    None => None,
                                    Some((ttl, i4)) => {
                                        if i4 + 1 == s.len() && s[i4] == 125 && vstd::utf8::valid_utf8(t)
                                            && vstd::utf8::valid_utf8(ip) {
                                            Some((vstd::utf8::decode_utf8(t), vstd::utf8::decode_utf8(ip), ttl))
                                        } else {
                                            None
                                        }
                                    },
                                }
                            }
                        },
                    }
                }
            },
        }
    }
}

/// Encode an invite payload in its canonical JSON form.
pub fn encode_payload(p: &InvitePayload) -> (r: Vec<u8>)
    ensures
        r@ == payload_enc(
            vstd::utf8::encode_utf8(p.target_username@),
            vstd::utf8::encode_utf8(p.ip_address@),
            p.ttl_timestamp,
        ),
{
    let mut out: Vec<u8> = Vec::new();
    let l1 = lit_target_vec();
    push_bytes(&mut out, l1.as_slice());
    write_json_string(&mut out, p.target_username.as_str().as_bytes());
    let l2 = lit_ip_vec();
    push_bytes(&mut out, l2.as_slice());
    write_json_string(&mut out, p.ip_address.as_str().as_bytes());
    let l3 = lit_ttl_vec();
    push_bytes(&mut out, l3.as_slice());
    write_u64(&mut out, p.ttl_timestamp);
    out.push(125u8);
    proof {
        assert(out@ =~= payload_enc(
            vstd::utf8::encode_utf8(p.target_username@),
            vstd::utf8::encode_utf8(p.ip_address@),
            p.ttl_timestamp,
        ));
    }
    out
}

/// Parse the canonical JSON form of an invite payload.
pub fn parse_payload(s: &[u8]) -> (r: Option<InvitePayload>)
    ensures
        match r {
            Some(p) => spec_parse_payload(s@) == Some(
                (p.target_username@, p.ip_address@, p.ttl_timestamp),
            ),
            None => spec_parse_payload(s@) is None,
        },
{
    let slen = s.len();
    proof {
        assert(s@.len() <= usize::MAX);
    }
    let l1 = lit_target_vec();
    if !check_lit(s, 0, l1.as_slice()) {
        return None;
    }
    let (t, i2) = match parse_string_at(s, l1.len()) {
        Some(x) => x,
        None => {
            return None;
        },
    };
    let l2 = lit_ip_vec();
    if !check_lit(s, i2, l2.as_slice()) {
        return None;
    }
    let (ip, i3) = match parse_string_at(s, i2 + l2.len()) {
        Some(x) => x,
        None => {
            return None;
        },
    };
    let l3 = lit_ttl_vec();
    if !check_lit(s, i3, l3.as_slice()) {
        return None;
    }
    let (ttl, i4) = match parse_u64_at(s, i3 + l3.len()) {
        Some(x) => x,
        None => {
            return None;
        },
    };
    if !(i4 < s.len() && i4 + 1 == s.len() && s[i4] == 125) {
        return None;
    }
    let ts = match string_from_utf8(t) {
        Some(x) => x,
        None => {
            return None;
        },
    };
    let ips = match string_from_utf8(ip) {
        Some(x) => x,
        None => {
            return None;
        },
    };
    Some(InvitePayload { target_username: ts, ip_address: ips, ttl_timestamp: ttl })
}

/// The payload parser inverts the payload writer.
pub proof fn lemma_payload_rt(t: Seq<char>, ip: Seq<char>, ttl: u64)
    ensures
        spec_parse_payload(
            payload_enc(vstd::utf8::encode_utf8(t), vstd::utf8::encode_utf8(ip), ttl),
        ) == Some((t, ip, ttl)),
{
    broadcast use vstd::utf8::encode_utf8_valid_utf8, vstd::utf8::encode_utf8_decode_utf8;

    let tb = vstd::utf8::encode_utf8(t);
    let ipb = vstd::utf8::encode_utf8(ip);
    let s = payload_enc(tb, ipb, ttl);
    let i1 = lit_target().len() as int;
    let i2 = i1 + jstr(tb).len() as int;
    let i3 = i2 + lit_ip().len() as int;
    let i4 = i3 + jstr(ipb).len() as int;
    let i5 = i4 + lit_ttl().len() as int;
    let i6 = i5 + dec_rep(ttl).len() as int;
    assert(s.len() == i6 + 1);
    lemma_eq_subrange(s, 0, lit_target());
    lemma_eq_subrange(s, i1, jstr(tb));
    lemma_eq_subrange(s, i2, lit_ip());
    lemma_eq_subrange(s, i3, jstr(ipb));
    lemma_eq_subrange(s, i4, lit_ttl());
    lemma_eq_subrange(s, i5, dec_rep(ttl));
    assert(match_lit(s, 0, lit_target()));
    lemma_parse_string_rt(s, i1, tb);
    assert(spec_parse_string(s, i1) == Some((tb, i2)));
    assert(match_lit(s, i2, lit_ip()));
    lemma_parse_string_rt(s, i3, ipb);
    assert(match_lit(s, i4, lit_ttl()));
    crate::json::lemma_dec_rep_digits(ttl);
    assert(s[i6] == 125);
    assert(!crate::json::is_digit(s[i6]));
    lemma_parse_u64_rt(s, i5, ttl);
}

/// The harvested key depends on the names only through their normal
/// forms: trimming or changing the case of either name changes nothing.
pub proof fn lemma_harvest_normalization(
    pw: Seq<char>,
    a: Seq<char>,
    b: Seq<char>,
    a2: Seq<char>,
    b2: Seq<char>,
)
    requires
        norm_of(a2) == norm_of(a),
        norm_of(b2) == norm_of(b),
    ensures
        harvest_spec(pw, a2, b2) == harvest_spec(pw, a, b),
{
}


// ============================================================================
// Envelope encryption and discovery
// ============================================================================

/// Whether the salt field is base64 of 16 bytes.
pub open spec fn invite_salt_ok(salt: Seq<char>) -> bool {
    match b64_decode_of(salt) {
        Some(sb) => sb.len() == 16,
        None => false,
    }
}

/// The plaintext an envelope opens to under the given harvested-key bytes:
/// the Argon2 key from the envelope's salt, then the AEAD.
pub open spec fn invite_plain_of(inv: InviteView, hkb: Seq<u8>) -> Option<Seq<u8>> {
    match (b64_decode_of(inv.salt), b64_decode_of(inv.ciphertext), b64_decode_of(inv.nonce)) {
        (Some(sb), Some(ct), Some(nb)) => if sb.len() == 16 && nb.len() == 24 {
            aead_open_of(kdf_of(hkb, sb), ct, nb)
        } else {
            None
        },
        _ => None,
    }
}

/// The payload an envelope carries under the given harvested-key bytes.
pub open spec fn invite_payload_of(inv: InviteView, hkb: Seq<u8>) -> Option<
    (Seq<char>, Seq<char>, u64),
> {
    match invite_plain_of(inv, hkb) {
        Some(pl) => spec_parse_payload(pl),
        None => None,
    }
}

/// An envelope that aborts a scan: its salt is malformed, or it opens but
/// its plaintext is not a well-formed payload.
pub open spec fn invite_faulty(inv: InviteView, hkb: Seq<u8>) -> bool {
    !invite_salt_ok(inv.salt) || (invite_plain_of(inv, hkb) is Some && spec_parse_payload(
        invite_plain_of(inv, hkb)->Some_0,
    ) is None)
}

/// An envelope a scan accepts: it opens to a payload meant for `me` that
/// has not expired at `now`.
pub open spec fn invite_accepts(inv: InviteView, hkb: Seq<u8>, me: Seq<char>, now: u64) -> bool {
    match invite_payload_of(inv, hkb) {
        Some((t, ip, ttl)) => t == me && ttl > now,
        None => false,
    }
}

/// The outcome of scanning envelopes from index `i` on: the first accepted
/// envelope's index and payload, nothing, or an abort on a faulty envelope.
pub open spec fn scan_invites(
    invs: Seq<InviteView>,
    i: int,
    hkb: Seq<u8>,
    me: Seq<char>,
    now: u64,
) -> Result<Option<(int, Seq<char>, Seq<char>, u64)>, ()>
    decreases invs.len() - i,
{
    if i < 0 || i >= invs.len() {
        Ok(None)
    } else if invite_faulty(invs[i], hkb) {
        Err(())
    } else if invite_accepts(invs[i], hkb, me, now) {
        match invite_payload_of(invs[i], hkb) {
            Some((t, ip, ttl)) => Ok(Some((i, t, ip, ttl))),
            None => Err(()),
        }
    } else {
        scan_invites(invs, i + 1, hkb, me, now)
    }
}

/// The views of a list of envelopes.
pub open spec fn invite_views(invs: Seq<EncryptedInvite>) -> Seq<InviteView> {
    invs.map_values(|x: EncryptedInvite| x@)
}

/// `now + ttl`, capped at the largest representable time.
pub open spec fn sat_add(a: u64, b: u64) -> u64 {
    if a + b > u64::MAX {
        u64::MAX
    } else {
        (a + b) as u64
    }
}

/// Seal a payload under a harvested key with a fresh salt and nonce. The
/// envelope opens back to exactly this payload under the same key.
pub fn encrypt_invite(payload: &InvitePayload, harvested_key: &HarvestedKey) -> (r: Result<
    EncryptedInvite,
    InviteError,
>)
    requires
        harvested_key.wf(),
    ensures
        match r {
            Ok(inv) => invite_payload_of(inv@, vstd::utf8::encode_utf8(harvested_key@)) == Some(
                (payload.target_username@, payload.ip_address@, payload.ttl_timestamp),
            ),
            Err(e) => e == InviteError::Crypto,
        },
{
    let salt = rand_bytes_16();
    let hkb = harvested_key.as_bytes();
    proof {
        vstd::utf8::is_ascii_chars_encode_utf8(harvested_key@);
    }
    let key = derive_key(hkb, salt.as_slice());
    let plain = encode_payload(payload);
    match encrypt_with_key(key.as_slice(), plain.as_slice()) {
        Ok((ct_b64, nonce_b64)) => {
            let inv = EncryptedInvite {
                salt: b64_encode(salt.as_slice()),
                nonce: nonce_b64,
                ciphertext: ct_b64,
            };
            proof {
                lemma_payload_rt(payload.target_username@, payload.ip_address@, payload.ttl_timestamp);
            }
            Ok(inv)
        },
        Err(_) => Err(InviteError::Crypto),
    }
}

/// Try to open one envelope under a harvested key. A failed decryption is
/// `Ok(None)`, not an error, so a scan cannot tell "wrong key" from "not
/// for me"; a malformed salt or an unparseable plaintext is an error.
pub fn decrypt_invite(invite: &EncryptedInvite, harvested_key: &HarvestedKey) -> (r: Result<
    Option<InvitePayload>,
    InviteError,
>)
    requires
        harvested_key.wf(),
    ensures
        match r {
            Ok(Some(p)) => invite_payload_of(invite@, vstd::utf8::encode_utf8(harvested_key@))
                == Some((p.target_username@, p.ip_address@, p.ttl_timestamp)),
            Ok(None) => invite_salt_ok(invite@.salt) && invite_plain_of(
                invite@,
                vstd::utf8::encode_utf8(harvested_key@),
            ) is None,
            Err(e) => e == InviteError::Encoding && invite_faulty(
                invite@,
                vstd::utf8::encode_utf8(harvested_key@),
            ),
        },
{
    let ghost hkbg = vstd::utf8::encode_utf8(harvested_key@);
    let salt_b = match b64_decode(invite.salt.as_str()) {
        Some(v) => v,
        None => {
            return Err(InviteError::Encoding);
        },
    };
    if salt_b.len() != 16 {
        return Err(InviteError::Encoding);
    }
    let hkb = harvested_key.as_bytes();
    proof {
        vstd::utf8::is_ascii_chars_encode_utf8(harvested_key@);
    }
    let key = derive_key(hkb, salt_b.as_slice());
    match decrypt_with_key(key.as_slice(), invite.ciphertext.as_str(), invite.nonce.as_str()) {
        Err(_) => {
            proof {
                if invite_plain_of(invite@, hkbg) is Some {
                    let pl = invite_plain_of(invite@, hkbg)->Some_0;
                    assert(opens_to(key@, invite@.ciphertext, invite@.nonce, pl));
                }
            }
            Ok(None)
        },
        Ok(plain) => {
            proof {
                assert(invite_plain_of(invite@, hkbg) == Some(plain@));
            }
            match parse_payload(plain.as_slice()) {
                None => Err(InviteError::Encoding),
                Some(p) => Ok(Some(p)),
            }
        },
    }
}

/// Generate a complete invite at a given time: harvest the key, build the
/// payload for the normalized invitee with the secret address and a TTL of
/// `now + ttl_secs` (capped), and seal it.
pub fn generate_invite_at(
    password: &str,
    inviter: &str,
    invitee: &str,
    ip_address: &str,
    ttl_secs: u64,
    now: u64,
) -> (r: Result<EncryptedInvite, InviteError>)
    ensures
        match r {
            Ok(inv) => passphrase_ok(password) && invite_payload_of(
                inv@,
                vstd::utf8::encode_utf8(harvest_spec(password@, inviter@, invitee@)),
            ) == Some((norm_of(invitee@), ip_address@, sat_add(now, ttl_secs))),
            Err(InviteError::BadLength) => !passphrase_ok(password),
            Err(e) => passphrase_ok(password) && e == InviteError::Crypto,
        },
{
    let harvested_key = match harvest_key(password, inviter, invitee) {
        Ok(k) => k,
        Err(e) => {
            return Err(e);
        },
    };
    let ttl_timestamp = match now.checked_add(ttl_secs) {
        Some(t) => t,
        None => u64::MAX,
    };
    let payload = InvitePayload {
        target_username: normalize_name(invitee),
        ip_address: ip_address.to_owned(),
        ttl_timestamp,
    };
    match encrypt_invite(&payload, &harvested_key) {
        Ok(inv) => Ok(inv),
        Err(_) => Err(InviteError::Crypto),
    }
}

/// Generate a complete invite with a TTL of `ttl_secs` from the current
/// time: the envelope opens under the same passphrase and names to a
/// payload for the normalized invitee with the given address.
pub fn generate_invite(
    password: &str,
    inviter: &str,
    invitee: &str,
    ip_address: &str,
    ttl_secs: u64,
) -> (r: Result<EncryptedInvite, InviteError>)
    ensures
        match r {
            Ok(inv) => passphrase_ok(password) && (exists|ttl_ts: u64|
                #[trigger] invite_payload_of(
                    inv@,
                    vstd::utf8::encode_utf8(harvest_spec(password@, inviter@, invitee@)),
                ) == Some((norm_of(invitee@), ip_address@, ttl_ts))),
            Err(InviteError::BadLength) => !passphrase_ok(password),
            Err(e) => passphrase_ok(password) && e == InviteError::Crypto,
        },
{
    let now = now_unix();
    generate_invite_at(password, inviter, invitee, ip_address, ttl_secs, now)
}

/// Scan a list of envelopes for the first one meant for us that is alive
/// at `now`. Envelopes that do not open under our key are silently
/// skipped; a malformed envelope aborts the scan with an error.
pub fn process_invites_at(
    invites: &Vec<EncryptedInvite>,
    password: &str,
    inviter: &str,
    my_username: &str,
    now: u64,
) -> (r: Result<Option<(InvitePayload, usize)>, InviteError>)
    ensures
        match r {
            Ok(Some((p, idx))) => passphrase_ok(password) && idx < invites@.len() && scan_invites(
                invite_views(invites@),
                0,
                vstd::utf8::encode_utf8(harvest_spec(password@, inviter@, my_username@)),
                norm_of(my_username@),
                now,
            ) == Ok::<Option<(int, Seq<char>, Seq<char>, u64)>, ()>(Some((idx as int, p.target_username@, p.ip_address@, p.ttl_timestamp))),
            Ok(None) => passphrase_ok(password) && scan_invites(
                invite_views(invites@),
                0,
                vstd::utf8::encode_utf8(harvest_spec(password@, inviter@, my_username@)),
                norm_of(my_username@),
                now,
            ) == Ok::<Option<(int, Seq<char>, Seq<char>, u64)>, ()>(None),
            Err(InviteError::BadLength) => !passphrase_ok(password),
            Err(e) => passphrase_ok(password) && e == InviteError::Encoding && scan_invites(
                invite_views(invites@),
                0,
                vstd::utf8::encode_utf8(harvest_spec(password@, inviter@, my_username@)),
                norm_of(my_username@),
                now,
            ) is Err,
        },
{
    let harvested_key = match harvest_key(password, inviter, my_username) {
        Ok(k) => k,
        Err(e) => {
            return Err(e);
        },
    };
    let ghost hkb = vstd::utf8::encode_utf8(harvested_key@);
    let ghost views = invite_views(invites@);
    let ghost me = norm_of(my_username@);
    let me_n = normalize_name(my_username);
    let n = invites.len();
    let mut i: usize = 0;
    while i < n
        invariant
            passphrase_ok(password),
            harvested_key.wf(),
            hkb == vstd::utf8::encode_utf8(harvested_key@),
            harvested_key@ == harvest_spec(password@, inviter@, my_username@),
            views == invite_views(invites@),
            me == norm_of(my_username@),
            me_n@ == me,
            n == invites@.len(),
            i <= n,
            scan_invites(views, 0, hkb, me, now) == scan_invites(views, i as int, hkb, me, now),
        decreases n - i,
    {
        proof {
            assert(views[i as int] == invites@[i as int]@);
        }
        match decrypt_invite(&invites[i], &harvested_key) {
            Err(_) => {
                proof {
                    assert(invite_faulty(views[i as int], hkb));
                    assert(scan_invites(views, i as int, hkb, me, now) == Err::<
                        Option<(int, Seq<char>, Seq<char>, u64)>,
                        (),
                    >(()));
                }
                return Err(InviteError::Encoding);
            },
            Ok(None) => {
                proof {
                    assert(!invite_faulty(views[i as int], hkb));
                    assert(!invite_accepts(views[i as int], hkb, me, now));
                }
            },
            Ok(Some(p)) => {
                proof {
                    assert(!invite_faulty(views[i as int], hkb));
                }
                if p.target_username == me_n && p.ttl_timestamp > now {
                    proof {
                        assert(invite_accepts(views[i as int], hkb, me, now));
                        assert(scan_invites(views, i as int, hkb, me, now) == Ok::<
                            Option<(int, Seq<char>, Seq<char>, u64)>,
                            (),
                        >(Some((i as int, p.target_username@, p.ip_address@, p.ttl_timestamp))));
                    }
                    return Ok(Some((p, i)));
                }
                proof {
                    assert(!invite_accepts(views[i as int], hkb, me, now));
                }
            },
        }
        i += 1;
    }
    Ok(None)
}

/// Scan a list of envelopes for the first one meant for us that is alive
/// now.
pub fn process_invites(
    invites: &Vec<EncryptedInvite>,
    password: &str,
    inviter: &str,
    my_username: &str,
) -> (r: Result<Option<(InvitePayload, usize)>, InviteError>)
    ensures
        match r {
            Ok(Some((p, idx))) => passphrase_ok(password) && idx < invites@.len()
                && p.target_username@ == norm_of(my_username@),
            Ok(None) => passphrase_ok(password),
            Err(InviteError::BadLength) => !passphrase_ok(password),
            Err(e) => passphrase_ok(password) && e == InviteError::Encoding,
        },
{
    let now = now_unix();
    let r = process_invites_at(invites, password, inviter, my_username, now);
    proof {
        lemma_scan_accepts(
            invite_views(invites@),
            0,
            vstd::utf8::encode_utf8(harvest_spec(password@, inviter@, my_username@)),
            norm_of(my_username@),
            now,
        );
    }
    r
}

/// What a successful scan returns was accepted: the payload is addressed
/// to `me` and alive at `now`.
pub proof fn lemma_scan_accepts(
    invs: Seq<InviteView>,
    i: int,
    hkb: Seq<u8>,
    me: Seq<char>,
    now: u64,
)
    ensures
        match scan_invites(invs, i, hkb, me, now) {
            Ok(Some((idx, t, ip, ttl))) => i <= idx < invs.len() && t == me && ttl > now
                && invite_payload_of(invs[idx], hkb) == Some((t, ip, ttl)),
            _ => true,
        },
    decreases invs.len() - i,
{
    if 0 <= i < invs.len() {
        if !invite_faulty(invs[i], hkb) && !invite_accepts(invs[i], hkb, me, now) {
            lemma_scan_accepts(invs, i + 1, hkb, me, now);
        }
    }
}

/// An expired invite is passed over: a scan over one envelope whose
/// payload has `ttl_ts` at or before `now` finds nothing, even though
/// the envelope opens and is addressed to `me`.
pub proof fn lemma_invite_expired(
    inv: InviteView,
    hkb: Seq<u8>,
    me: Seq<char>,
    ip: Seq<char>,
    ttl_ts: u64,
    now: u64,
)
    requires
        invite_payload_of(inv, hkb) == Some((me, ip, ttl_ts)),
        ttl_ts <= now,
    ensures
        scan_invites(seq![inv], 0, hkb, me, now) == Ok::<
            Option<(int, Seq<char>, Seq<char>, u64)>,
            (),
        >(None),
{
    assert(seq![inv][0] == inv);
    assert(!invite_faulty(inv, hkb));
    assert(!invite_accepts(inv, hkb, me, now));
    assert(scan_invites(seq![inv], 1, hkb, me, now) == Ok::<
        Option<(int, Seq<char>, Seq<char>, u64)>,
        (),
    >(None));
}

/// The invite round trip: an envelope whose payload is addressed to `me`
/// with address `ip` and expiry `ttl_ts` is found by a scan over just that
/// envelope at any time before expiry, and the scan hands back exactly
/// that address. Generating and then processing an invite with the same
/// passphrase and names is such a scan.
pub proof fn lemma_invite_round_trip(
    inv: InviteView,
    hkb: Seq<u8>,
    me: Seq<char>,
    ip: Seq<char>,
    ttl_ts: u64,
    now: u64,
)
    requires
        invite_payload_of(inv, hkb) == Some((me, ip, ttl_ts)),
        ttl_ts > now,
    ensures
        scan_invites(seq![inv], 0, hkb, me, now) == Ok::<Option<(int, Seq<char>, Seq<char>, u64)>, ()>(Some((0int, me, ip, ttl_ts))),
{
    assert(seq![inv][0] == inv);
    assert(invite_salt_ok(inv.salt));
    assert(!invite_faulty(inv, hkb));
    assert(invite_accepts(inv, hkb, me, now));
}

} // verus!

