//! The byte-level tokens of the crate's canonical JSON wire format:
//! decimal numbers, escaped strings, and literal segments, each with a
//! writer, a parser, and a proof that the parser inverts the writer.

use vstd::prelude::*;

verus! {

/// Whether a byte is an ASCII decimal digit.
pub open spec fn is_digit(b: u8) -> bool {
    48 <= b <= 57
}

/// The canonical decimal representation of a number, as ASCII bytes.
pub open spec fn dec_rep(v: u64) -> Seq<u8>
    decreases v,
{
    if v < 10 {
        seq![(48 + v) as u8]
    } else {
        dec_rep(v / 10).push((48 + v % 10) as u8)
    }
}

/// Left fold of a digit run onto an accumulator, the value a greedy
/// decimal scan computes.
pub open spec fn num_acc(digits: Seq<u8>, acc: int) -> int
    decreases digits.len(),
{
    if digits.len() == 0 {
        acc
    } else {
        num_acc(digits.drop_first(), acc * 10 + (digits[0] - 48))
    }
}

pub proof fn lemma_dec_rep_digits(v: u64)
    ensures
        dec_rep(v).len() >= 1,
        forall|i: int| 0 <= i < dec_rep(v).len() ==> is_digit(#[trigger] dec_rep(v)[i]),
    decreases v,
{
    if v >= 10 {
        lemma_dec_rep_digits(v / 10);
    }
}

proof fn lemma_num_acc_append(digits: Seq<u8>, d: u8, acc: int)
    ensures
        num_acc(digits.push(d), acc) == num_acc(digits, acc) * 10 + (d - 48),
    decreases digits.len(),
{
    let p = digits.push(d);
    if digits.len() == 0 {
        assert(p[0] == d);
        assert(p.drop_first() =~= Seq::<u8>::empty());
        assert(num_acc(p, acc) == num_acc(p.drop_first(), acc * 10 + (p[0] - 48)));
        assert(num_acc(p, acc) == acc * 10 + (d - 48));
        assert(num_acc(digits, acc) == acc);
    } else {
        assert(p[0] == digits[0]);
        assert(p.drop_first() =~= digits.drop_first().push(d));
        assert(num_acc(p, acc) == num_acc(digits.drop_first().push(d), acc * 10 + (digits[0]
            - 48)));
        lemma_num_acc_append(digits.drop_first(), d, acc * 10 + (digits[0] - 48));
        assert(num_acc(digits, acc) == num_acc(digits.drop_first(), acc * 10 + (digits[0] - 48)));
    }
}

pub proof fn lemma_num_acc_dec_rep(v: u64)
    ensures
        num_acc(dec_rep(v), 0) == v,
    decreases v,
{
    if v < 10 {
        assert(dec_rep(v) =~= seq![(48 + v) as u8]);
        assert(dec_rep(v).drop_first() =~= Seq::<u8>::empty());
        assert(num_acc(dec_rep(v), 0) == num_acc(Seq::<u8>::empty(), v as int));
    } else {
        lemma_num_acc_dec_rep(v / 10);
        lemma_num_acc_append(dec_rep(v / 10), (48 + v % 10) as u8, 0);
        assert(num_acc(dec_rep(v), 0) == (v / 10) * 10 + v % 10);
        assert((v / 10) * 10 + v % 10 == v) by (nonlinear_arith);
    }
}

proof fn lemma_num_acc_monotone(digits: Seq<u8>, acc: int)
    requires
        acc >= 0,
        forall|i: int| 0 <= i < digits.len() ==> is_digit(#[trigger] digits[i]),
    ensures
        num_acc(digits, acc) >= acc,
    decreases digits.len(),
{
    if digits.len() > 0 {
        lemma_num_acc_monotone(digits.drop_first(), acc * 10 + (digits[0] - 48));
    }
}

/// Greedy decimal scan from position `i` with accumulator `acc`: stops at
/// the first non-digit, fails on `u64` overflow.
pub open spec fn scan_u64(s: Seq<u8>, i: int, acc: u64) -> Option<(u64, int)>
    decreases s.len() - i,
{
    if i < 0 || i >= s.len() || !is_digit(s[i]) {
        Some((acc, i))
    } else {
        let d = (s[i] - 48) as u64;
        if acc > (u64::MAX - d) / 10 {
            None
        } else {
            scan_u64(s, i + 1, (acc * 10 + d) as u64)
        }
    }
}

/// Parse a decimal `u64` at position `i`: at least one digit, greedy,
/// failing on overflow.
pub open spec fn spec_parse_u64(s: Seq<u8>, i: int) -> Option<(u64, int)> {
    if 0 <= i < s.len() && is_digit(s[i]) {
        scan_u64(s, i, 0)
    } else {
        None
    }
}

proof fn lemma_scan_u64_run(s: Seq<u8>, i: int, acc: u64, run: Seq<u8>)
    requires
        0 <= i,
        i + run.len() <= s.len(),
        forall|k: int| 0 <= k < run.len() ==> s[i + k] == run[k] && is_digit(#[trigger] run[k]),
        i + run.len() == s.len() || !is_digit(s[i + run.len()]),
        num_acc(run, acc as int) <= u64::MAX,
    ensures
        scan_u64(s, i, acc) == Some((num_acc(run, acc as int) as u64, i + run.len())),
    decreases run.len(),
{
    if run.len() == 0 {
    } else {
        let d = (s[i] - 48) as u64;
        assert(run[0] == s[i]);
        lemma_num_acc_monotone(run.drop_first(), acc * 10 + d);
        assert(num_acc(run, acc as int) == num_acc(run.drop_first(), acc * 10 + d));
        assert(acc * 10 + d <= u64::MAX);
        assert(acc <= (u64::MAX - d) / 10);
        lemma_scan_u64_run(s, i + 1, (acc * 10 + d) as u64, run.drop_first());
    }
}

/// The parser inverts the writer: a canonical decimal followed by a
/// non-digit parses back to the value.
pub proof fn lemma_parse_u64_rt(s: Seq<u8>, i: int, v: u64)
    requires
        0 <= i,
        i + dec_rep(v).len() <= s.len(),
        s.subrange(i, i + dec_rep(v).len() as int) == dec_rep(v),
        i + dec_rep(v).len() == s.len() || !is_digit(s[i + dec_rep(v).len()]),
    ensures
        spec_parse_u64(s, i) == Some((v, i + dec_rep(v).len())),
{
    lemma_dec_rep_digits(v);
    lemma_num_acc_dec_rep(v);
    assert forall|k: int| 0 <= k < dec_rep(v).len() implies s[i + k] == dec_rep(v)[k] && is_digit(
        dec_rep(v)[k],
    ) by {
        assert(s.subrange(i, i + dec_rep(v).len() as int)[k] == s[i + k]);
    }
    lemma_scan_u64_run(s, i, 0, dec_rep(v));
    assert(is_digit(s[i]));
}

/// Parse a decimal `u64` at position `i` of `s`.
pub fn parse_u64_at(s: &[u8], i: usize) -> (r: Option<(u64, usize)>)
    requires
        i <= s@.len(),
    ensures
        match r {
            Some((v, j)) => spec_parse_u64(s@, i as int) == Some((v, j as int)) && i < j <= s@.len(),
            None => spec_parse_u64(s@, i as int) is None,
        },
{
    if i >= s.len() || !(48 <= s[i] && s[i] <= 57) {
        return None;
    }
    let mut acc: u64 = 0;
    let mut k: usize = i;
    while k < s.len() && 48 <= s[k] && s[k] <= 57
        invariant
            i < s@.len(),
            is_digit(s@[i as int]),
            i <= k <= s@.len(),
            scan_u64(s@, i as int, 0) == scan_u64(s@, k as int, acc),
            k > i || (k == i && acc == 0),
        decreases s@.len() - k,
    {
        let d = s[k] - 48;
        if acc > (u64::MAX - d as u64) / 10 {
            proof {
                assert(scan_u64(s@, k as int, acc) is None);
            }
            return None;
        }
        acc = acc * 10 + d as u64;
        k += 1;
    }
    proof {
        assert(scan_u64(s@, k as int, acc) == Some((acc, k as int)));
        assert(k > i);
    }
    Some((acc, k))
}

/// Append the canonical decimal representation of `v`.
pub fn write_u64(out: &mut Vec<u8>, v: u64)
    ensures
        final(out)@ == old(out)@ + dec_rep(v),
{
    if v == 0 {
        out.push(48u8);
        assert(final(out)@ =~= old(out)@ + dec_rep(0));
        return;
    }
    let mut tmp: Vec<u8> = Vec::new();
    let mut cur: u64 = v;
    while cur > 0
        invariant
            cur > 0 ==> dec_rep(v) == dec_rep(cur) + tmp@.reverse(),
            cur == 0 ==> dec_rep(v) == tmp@.reverse(),
            cur == v ==> tmp@.len() == 0,
            v > 0,
        decreases cur,
    {
        let d = (48 + cur % 10) as u8;
        proof {
            if cur >= 10 {
                assert(dec_rep(cur) =~= dec_rep(cur / 10).push(d));
                assert(tmp@.push(d).reverse() =~= seq![d] + tmp@.reverse());
                assert(dec_rep(cur / 10) + tmp@.push(d).reverse() =~= dec_rep(cur)
                    + tmp@.reverse());
            } else {
                assert(dec_rep(cur) =~= seq![d]);
                assert(tmp@.push(d).reverse() =~= seq![d] + tmp@.reverse());
            }
        }
        tmp.push(d);
        cur = cur / 10;
    }
    let n = tmp.len();
    let mut idx: usize = n;
    while idx > 0
        invariant
            idx <= n,
            n == tmp@.len(),
            out@ == old(out)@ + tmp@.reverse().take(n - idx),
        decreases idx,
    {
        idx -= 1;
        proof {
            assert(tmp@.reverse().take(n - idx) =~= tmp@.reverse().take(n - idx - 1).push(
                tmp@.reverse()[n - idx - 1],
            ));
            assert(tmp@.reverse()[n - idx - 1] == tmp@[idx as int]);
        }
        out.push(tmp[idx]);
    }
    proof {
        assert(tmp@.reverse().take(n as int) =~= tmp@.reverse());
    }
}

/// The lowercase hex digit byte for a nibble.
pub open spec fn hex_lc(v: int) -> u8 {
    if v < 10 {
        (48 + v) as u8
    } else {
        (87 + v) as u8
    }
}

/// Whether a byte is a lowercase hex digit.
pub open spec fn is_hex_lc(b: u8) -> bool {
    (48 <= b <= 57) || (97 <= b <= 102)
}

/// The nibble value of a lowercase hex digit byte.
pub open spec fn unhex(b: u8) -> int {
    if 48 <= b <= 57 {
        b - 48
    } else {
        b - 87
    }
}

/// The escaped form of one byte inside a JSON string: quote and backslash
/// get a backslash, control bytes become `\u00xx`, everything else is
/// written raw.
pub open spec fn esc1(b: u8) -> Seq<u8> {
    if b == 34 {
        seq![92u8, 34u8]
    } else if b == 92 {
        seq![92u8, 92u8]
    } else if b < 32 {
        seq![92u8, 117u8, 48u8, 48u8, hex_lc(b as int / 16), hex_lc(b as int % 16)]
    } else {
        seq![b]
    }
}

/// The escaped form of a byte sequence inside a JSON string.
pub open spec fn esc(s: Seq<u8>) -> Seq<u8>
    decreases s.len(),
{
    if s.len() == 0 {
        Seq::<u8>::empty()
    } else {
        esc1(s[0]) + esc(s.drop_first())
    }
}

pub proof fn lemma_esc_append(a: Seq<u8>, b: Seq<u8>)
    ensures
        esc(a + b) == esc(a) + esc(b),
    decreases a.len(),
{
    if a.len() == 0 {
        assert(a + b =~= b);
        assert(esc(a) + esc(b) =~= esc(b));
    } else {
        assert((a + b).drop_first() =~= a.drop_first() + b);
        lemma_esc_append(a.drop_first(), b);
        assert(esc(a + b) =~= esc1(a[0]) + (esc(a.drop_first()) + esc(b)));
        assert(esc(a) + esc(b) =~= esc1(a[0]) + (esc(a.drop_first()) + esc(b)));
    }
}

/// Append one escaped byte.
fn write_escaped_byte(out: &mut Vec<u8>, b: u8)
    ensures
        final(out)@ == old(out)@ + esc1(b),
{
    if b == 34 {
        out.push(92u8);
        out.push(34u8);
        assert(final(out)@ =~= old(out)@ + esc1(b));
    } else if b == 92 {
        out.push(92u8);
        out.push(92u8);
        assert(final(out)@ =~= old(out)@ + esc1(b));
    } else if b < 32 {
        out.push(92u8);
        out.push(117u8);
        out.push(48u8);
        out.push(48u8);
        let hi = b / 16;
        let lo = b % 16;
        out.push(if hi < 10 { 48 + hi } else { 87 + hi });
        out.push(if lo < 10 { 48 + lo } else { 87 + lo });
        assert(final(out)@ =~= old(out)@ + esc1(b));
    } else {
        out.push(b);
        assert(final(out)@ =~= old(out)@ + esc1(b));
    }
}

/// Append a JSON string: quote, escaped bytes, quote.
pub fn write_json_string(out: &mut Vec<u8>, s: &[u8])
    ensures
        final(out)@ == old(out)@ + seq![34u8] + esc(s@) + seq![34u8],
{
    out.push(34u8);
    let n = s.len();
    let mut i: usize = 0;
    while i < n
        invariant
            i <= n,
            n == s@.len(),
            out@ == old(out)@ + seq![34u8] + esc(s@.take(i as int)),
        decreases n - i,
    {
        proof {
            assert(s@.take(i + 1) =~= s@.take(i as int) + seq![s@[i as int]]);
            lemma_esc_append(s@.take(i as int), seq![s@[i as int]]);
            assert(seq![s@[i as int]].drop_first() =~= Seq::<u8>::empty());
            assert(esc(seq![s@[i as int]]) =~= esc1(s@[i as int]) + esc(Seq::<u8>::empty()));
            assert(esc(seq![s@[i as int]]) =~= esc1(s@[i as int]));
        }
        write_escaped_byte(out, s[i]);
        i += 1;
    }
    out.push(34u8);
    proof {
        assert(s@.take(n as int) =~= s@);
    }
}

/// Scan the inside of a JSON string from position `i` up to the closing
/// quote: the unescaped bytes and the position after the quote. Accepts
/// exactly what the writer emits: `\"`, `\\`, and `\u00xx` with lowercase
/// hex for control bytes; raw bytes otherwise.
pub open spec fn sps(s: Seq<u8>, i: int) -> Option<(Seq<u8>, int)>
    decreases s.len() - i,
{
    if i < 0 || i >= s.len() {
        None
    } else if s[i] == 34 {
        Some((Seq::<u8>::empty(), i + 1))
    } else if s[i] == 92 {
        if i + 1 >= s.len() {
            None
        } else if s[i + 1] == 34 || s[i + 1] == 92 {
            match sps(s, i + 2) {
                Some((r, j)) => Some((seq![s[i + 1]] + r, j)),
                None => None,
            }
        } else if s[i + 1] == 117 {
            if i + 5 >= s.len() {
                None
            } else if s[i + 2] == 48 && s[i + 3] == 48 && is_hex_lc(s[i + 4]) && is_hex_lc(
                s[i + 5],
            ) && unhex(s[i + 4]) * 16 + unhex(s[i + 5]) < 32 {
                match sps(s, i + 6) {
                    Some((r, j)) => Some(
                        (seq![(unhex(s[i + 4]) * 16 + unhex(s[i + 5])) as u8] + r, j),
                    ),
                    None => None,
                }
            } else {
                None
            }
        } else {
            None
        }
    } else if s[i] < 32 {
        None
    } else {
        match sps(s, i + 1) {
            Some((r, j)) => Some((seq![s[i]] + r, j)),
            None => None,
        }
    }
}

/// Parse a JSON string at position `i`: an opening quote, then the scan.
pub open spec fn spec_parse_string(s: Seq<u8>, i: int) -> Option<(Seq<u8>, int)> {
    if 0 <= i < s.len() && s[i] == 34 {
        sps(s, i + 1)
    } else {
        None
    }
}

proof fn lemma_sps_progress(s: Seq<u8>, i: int)
    ensures
        match sps(s, i) {
            Some((r, j)) => i < j <= s.len(),
            None => true,
        },
    decreases s.len() - i,
{
    if 0 <= i < s.len() {
        if s[i] == 92 && i + 1 < s.len() {
            if s[i + 1] == 34 || s[i + 1] == 92 {
                lemma_sps_progress(s, i + 2);
            } else if s[i + 1] == 117 && i + 5 < s.len() {
                lemma_sps_progress(s, i + 6);
            }
        } else if s[i] != 34 && s[i] != 92 && s[i] >= 32 {
            lemma_sps_progress(s, i + 1);
        }
    }
}

/// Parse a JSON string at position `i` of `s`.
pub fn parse_string_at(s: &[u8], i: usize) -> (r: Option<(Vec<u8>, usize)>)
    requires
        i <= s@.len(),
    ensures
        match r {
            Some((v, j)) => spec_parse_string(s@, i as int) == Some((v@, j as int)) && i < j
                <= s@.len(),
            None => spec_parse_string(s@, i as int) is None,
        },
{
    if i >= s.len() || s[i] != 34 {
        return None;
    }
    let mut acc: Vec<u8> = Vec::new();
    let mut k: usize = i + 1;
    loop
        invariant
            i < s@.len(),
            s@[i as int] == 34,
            i + 1 <= k <= s@.len(),
            sps(s@, i + 1) == match sps(s@, k as int) {
                Some((r, j)) => Some::<(Seq<u8>, int)>((acc@ + r, j)),
                None => None::<(Seq<u8>, int)>,
            },
        decreases s@.len() - k,
    {
        if k >= s.len() {
            return None;
        }
        let b = s[k];
        if b == 34 {
            proof {
                assert(sps(s@, k as int) == Some((Seq::<u8>::empty(), k + 1 as int)));
                assert(acc@ + Seq::<u8>::empty() =~= acc@);
                assert(sps(s@, i + 1) == Some((acc@, k + 1 as int)));
                assert(spec_parse_string(s@, i as int) == sps(s@, i + 1));
                lemma_sps_progress(s@, i + 1);
            }
            return Some((acc, k + 1));
        } else if b == 92 {
            if k + 1 >= s.len() {
                return None;
            }
            let e = s[k + 1];
            if e == 34 || e == 92 {
                proof {
                    if sps(s@, k + 2) is Some {
                        let (r, j) = sps(s@, k + 2)->Some_0;
                        assert(acc@ + (seq![e] + r) =~= acc@.push(e) + r);
                    }
                }
                acc.push(e);
                k += 2;
            } else if e == 117 {
                if s.len() - k < 6 {
                    return None;
                }
                let h1 = s[k + 4];
                let h2 = s[k + 5];
                let ok1 = (48 <= h1 && h1 <= 57) || (97 <= h1 && h1 <= 102);
                let ok2 = (48 <= h2 && h2 <= 57) || (97 <= h2 && h2 <= 102);
                if s[k + 2] != 48 || s[k + 3] != 48 || !ok1 || !ok2 {
                    return None;
                }
                let v1 = if h1 <= 57 { h1 - 48 } else { h1 - 87 };
                let v2 = if h2 <= 57 { h2 - 48 } else { h2 - 87 };
                let val = v1 * 16 + v2;
                if val >= 32 {
                    return None;
                }
                proof {
                    if sps(s@, k + 6) is Some {
                        let (r, j) = sps(s@, k + 6)->Some_0;
                        assert(acc@ + (seq![val] + r) =~= acc@.push(val) + r);
                    }
                }
                acc.push(val);
                k += 6;
            } else {
                return None;
            }
        } else if b < 32 {
            return None;
        } else {
            proof {
                if sps(s@, k + 1) is Some {
                    let (r, j) = sps(s@, k + 1)->Some_0;
                    assert(acc@ + (seq![b] + r) =~= acc@.push(b) + r);
                }
            }
            acc.push(b);
            k += 1;
        }
    }
}

/// The scan inverts the escape: escaped bytes followed by a closing quote
/// scan back to the original bytes.
pub proof fn lemma_sps_esc(s: Seq<u8>, i: int, v: Seq<u8>)
    requires
        0 <= i,
        i + esc(v).len() < s.len(),
        s.subrange(i, i + esc(v).len() as int) == esc(v),
        s[i + esc(v).len()] == 34,
    ensures
        sps(s, i) == Some((v, i + esc(v).len() + 1)),
    decreases v.len(),
{
    if v.len() == 0 {
        assert(esc(v).len() == 0);
        assert(s[i] == 34);
    } else {
        let e1 = esc1(v[0]);
        let rest = esc(v.drop_first());
        assert(esc(v) == e1 + rest);
        assert forall|k: int| 0 <= k < esc(v).len() implies #[trigger] s[i + k] == esc(v)[k] by {
            assert(s.subrange(i, i + esc(v).len() as int)[k] == s[i + k]);
        }
        let i2 = i + e1.len();
        assert(s.subrange(i2, i2 + rest.len() as int) =~= rest) by {
            assert forall|k: int| 0 <= k < rest.len() implies s.subrange(
                i2,
                i2 + rest.len() as int,
            )[k] == rest[k] by {
                assert(s[i2 + k] == esc(v)[e1.len() + k]);
                assert(esc(v)[e1.len() + k] == rest[k]);
            }
        }
        lemma_sps_esc(s, i2, v.drop_first());
        let b = v[0];
        if b == 34 || b == 92 {
            assert(s[i + 0] == esc(v)[0] && s[i + 1] == esc(v)[1]);
            assert(esc(v)[0] == e1[0] && esc(v)[1] == e1[1]);
            assert(s[i] == 92 && s[i + 1] == b);
            assert(seq![b] + v.drop_first() =~= v);
        } else if b < 32 {
            assert(s[i + 0] == esc(v)[0] && s[i + 1] == esc(v)[1] && s[i + 2] == esc(v)[2] && s[i
                + 3] == esc(v)[3] && s[i + 4] == esc(v)[4] && s[i + 5] == esc(v)[5]);
            assert(esc(v)[0] == e1[0] && esc(v)[1] == e1[1] && esc(v)[2] == e1[2] && esc(v)[3]
                == e1[3] && esc(v)[4] == e1[4] && esc(v)[5] == e1[5]);
            assert(s[i] == 92 && s[i + 1] == 117 && s[i + 2] == 48 && s[i + 3] == 48);
            assert(s[i + 4] == hex_lc(b as int / 16) && s[i + 5] == hex_lc(b as int % 16));
            assert(is_hex_lc(hex_lc(b as int / 16)) && unhex(hex_lc(b as int / 16)) == b as int
                / 16);
            assert(is_hex_lc(hex_lc(b as int % 16)) && unhex(hex_lc(b as int % 16)) == b as int
                % 16);
            assert((b as int / 16) * 16 + (b as int % 16) == b as int);
            assert(seq![b] + v.drop_first() =~= v);
        } else {
            assert(s[i + 0] == esc(v)[0]);
            assert(esc(v)[0] == e1[0]);
            assert(s[i] == b);
            assert(b != 34 && b != 92 && b >= 32);
            assert(seq![b] + v.drop_first() =~= v);
        }
    }
}

/// The string parser inverts the string writer.
pub proof fn lemma_parse_string_rt(s: Seq<u8>, i: int, v: Seq<u8>)
    requires
        0 <= i,
        i + esc(v).len() + 2 <= s.len(),
        s.subrange(i, i + esc(v).len() + 2) == seq![34u8] + esc(v) + seq![34u8],
    ensures
        spec_parse_string(s, i) == Some((v, i + esc(v).len() + 2)),
{
    let w = seq![34u8] + esc(v) + seq![34u8];
    assert forall|k: int| 0 <= k < w.len() implies #[trigger] s[i + k] == w[k] by {
        assert(s.subrange(i, i + esc(v).len() + 2)[k] == s[i + k]);
    }
    assert(s[i + 0] == w[0]);
    assert(s[i] == 34);
    assert(s.subrange(i + 1, i + 1 + esc(v).len() as int) =~= esc(v)) by {
        assert forall|k: int| 0 <= k < esc(v).len() implies s.subrange(
            i + 1,
            i + 1 + esc(v).len() as int,
        )[k] == esc(v)[k] by {
            assert(s[i + 1 + k] == w[1 + k]);
        }
    }
    assert(s[i + 1 + esc(v).len()] == w[1 + esc(v).len() as int]);
    lemma_sps_esc(s, i + 1, v);
}

/// A JSON string token: quote, escaped bytes, quote.
pub open spec fn jstr(s: Seq<u8>) -> Seq<u8> {
    seq![34u8] + esc(s) + seq![34u8]
}

/// Whether `lit` occurs in `s` at position `i`.
pub open spec fn match_lit(s: Seq<u8>, i: int, lit: Seq<u8>) -> bool {
    0 <= i && i + lit.len() <= s.len() && s.subrange(i, i + lit.len() as int) == lit
}

/// Check whether `lit` occurs in `s` at position `i`.
pub fn check_lit(s: &[u8], i: usize, lit: &[u8]) -> (r: bool)
    ensures
        r == match_lit(s@, i as int, lit@),
{
    if i > s.len() || s.len() - i < lit.len() {
        return false;
    }
    let n = lit.len();
    let mut k: usize = 0;
    while k < n
        invariant
            i + n <= s@.len(),
            i + n <= usize::MAX,
            n == lit@.len(),
            k <= n,
            forall|j: int| 0 <= j < k ==> s@[i + j] == lit@[j],
        decreases n - k,
    {
        if s[i + k] != lit[k] {
            proof {
                assert(s@.subrange(i as int, i + lit@.len() as int)[k as int] == s@[i + k]);
            }
            return false;
        }
        k += 1;
    }
    proof {
        assert forall|j: int| 0 <= j < lit@.len() implies s@.subrange(
            i as int,
            i + lit@.len() as int,
        )[j] == lit@[j] by {
            assert(s@.subrange(i as int, i + lit@.len() as int)[j] == s@[i + j]);
        }
        assert(s@.subrange(i as int, i + lit@.len() as int) =~= lit@);
    }
    true
}

/// A subrange equals a word when the word's bytes stand at the position.
pub proof fn lemma_eq_subrange(s: Seq<u8>, i: int, w: Seq<u8>)
    requires
        0 <= i,
        i + w.len() <= s.len(),
        forall|k: int| 0 <= k < w.len() ==> s[i + k] == w[k],
    ensures
        s.subrange(i, i + w.len() as int) == w,
{
    assert forall|k: int| 0 <= k < w.len() implies s.subrange(i, i + w.len() as int)[k] == w[k] by {
        assert(s.subrange(i, i + w.len() as int)[k] == s[i + k]);
    }
    assert(s.subrange(i, i + w.len() as int) =~= w);
}

/// A subrange of characters equals a word when its characters stand at
/// the position.
pub proof fn lemma_eq_subrange_chars(s: Seq<char>, i: int, w: Seq<char>)
    requires
        0 <= i,
        i + w.len() <= s.len(),
        forall|k: int| 0 <= k < w.len() ==> s[i + k] == w[k],
    ensures
        s.subrange(i, i + w.len() as int) == w,
{
    assert forall|k: int| 0 <= k < w.len() implies s.subrange(i, i + w.len() as int)[k] == w[k] by {
        assert(s.subrange(i, i + w.len() as int)[k] == s[i + k]);
    }
    assert(s.subrange(i, i + w.len() as int) =~= w);
}

/// Append bytes.
pub fn push_bytes(out: &mut Vec<u8>, s: &[u8])
    ensures
        final(out)@ == old(out)@ + s@,
{
    let n = s.len();
    let mut i: usize = 0;
    while i < n
        invariant
            i <= n,
            n == s@.len(),
            out@ == old(out)@ + s@.take(i as int),
        decreases n - i,
    {
        proof {
            assert(s@.take(i + 1) =~= s@.take(i as int).push(s@[i as int]));
        }
        out.push(s[i]);
        i += 1;
    }
    proof {
        assert(s@.take(n as int) =~= s@);
    }
}

} // verus!
