//! LAN discovery decisions: the advertised host name, the TXT records,
//! self-filtering, and the multiaddress formed from a discovery. The
//! DNS-SD machinery that broadcasts and browses lives outside the crate.

use vstd::prelude::*;
use crate::text::str_eq;
use vstd::string::StrSliceExecFns;
use vstd::string::StringExecFns;

verus! {

/// A peer discovered over DNS-SD.
#[derive(Debug, Clone)]
pub struct MdnsPeer {
    pub peer_id: String,
    pub addresses: Vec<String>,
    pub device_name: Option<String>,
    pub alias: Option<String>,
}

/// The character of one decimal digit.
pub open spec fn digit_char(v: int) -> char {
    if v == 0 {
        '0'
    } else if v == 1 {
        '1'
    } else if v == 2 {
        '2'
    } else if v == 3 {
        '3'
    } else if v == 4 {
        '4'
    } else if v == 5 {
        '5'
    } else if v == 6 {
        '6'
    } else if v == 7 {
        '7'
    } else if v == 8 {
        '8'
    } else {
        '9'
    }
}

/// The decimal characters of a number.
pub open spec fn dec_chars(v: u64) -> Seq<char>
    decreases v,
{
    if v < 10 {
        seq![digit_char(v as int)]
    } else {
        dec_chars(v / 10).push(digit_char((v % 10) as int))
    }
}

/// Append the decimal representation of `v` to a string.
pub fn push_u64(out: &mut String, v: u64)
    ensures
        final(out)@ == old(out)@ + dec_chars(v),
{
    if v == 0 {
        out.push('0');
        proof {
            assert(final(out)@ =~= old(out)@ + dec_chars(0));
        }
        return;
    }
    let mut tmp: Vec<char> = Vec::new();
    let mut cur: u64 = v;
    while cur > 0
        invariant
            cur > 0 ==> dec_chars(v) == dec_chars(cur) + tmp@.reverse(),
            cur == 0 ==> dec_chars(v) == tmp@.reverse(),
            v > 0,
        decreases cur,
    {
        let m = cur % 10;
        let d: char = if m == 0 {
            '0'
        } else if m == 1 {
            '1'
        } else if m == 2 {
            '2'
        } else if m == 3 {
            '3'
        } else if m == 4 {
            '4'
        } else if m == 5 {
            '5'
        } else if m == 6 {
            '6'
        } else if m == 7 {
            '7'
        } else if m == 8 {
            '8'
        } else {
            '9'
        };
        proof {
            assert(d == digit_char((cur % 10) as int));
            if cur >= 10 {
                assert(dec_chars(cur) =~= dec_chars(cur / 10).push(d));
                assert(tmp@.push(d).reverse() =~= seq![d] + tmp@.reverse());
                assert(dec_chars(cur / 10) + tmp@.push(d).reverse() =~= dec_chars(cur)
                    + tmp@.reverse());
            } else {
                assert(dec_chars(cur) =~= seq![d]);
                assert(tmp@.push(d).reverse() =~= seq![d] + tmp@.reverse());
            }
        }
        tmp.push(d);
        cur = cur / 10;
    }
    let n = tmp.len();
    let mut idx: usize = n;
    while idx > 0
        invariant
            idx <= n,
            n == tmp@.len(),
            out@ == old(out)@ + tmp@.reverse().take(n - idx),
        decreases idx,
    {
        idx -= 1;
        proof {
            assert(tmp@.reverse().take(n - idx) =~= tmp@.reverse().take(n - idx - 1).push(
                tmp@.reverse()[n - idx - 1],
            ));
            assert(tmp@.reverse()[n - idx - 1] == tmp@[idx as int]);
        }
        out.push(tmp[idx]);
    }
    proof {
        assert(tmp@.reverse().take(n as int) =~= tmp@.reverse());
    }
}

/// The multiaddress advertised for a discovered host.
pub fn multiaddr_for(ip: &str, port: u16) -> (r: String)
    ensures
        r@ == "/ip4/"@ + ip@ + "/tcp/"@ + dec_chars(port as u64),
{
    let mut out = String::new();
    out.append("/ip4/");
    out.append(ip);
    out.append("/tcp/");
    push_u64(&mut out, port as u64);
    out
}

/// A DNS label must start with a letter: a host name that is empty or
/// starts with a digit is replaced by a prefix of the instance name
/// behind a fixed stem; otherwise the host name is kept, cut to 32
/// characters.
pub fn service_host_name(raw_hostname: &str, instance: &str) -> (r: String)
    ensures
        ({
            let bad = raw_hostname@.len() == 0 || ('0' <= raw_hostname@[0] && raw_hostname@[0]
                <= '9');
            if bad {
                r@ == "rchat-"@ + instance@.take(
                    if instance@.len() < 12 {
                        instance@.len() as int
                    } else {
                        12
                    },
                )
            } else {
                r@ == raw_hostname@.take(
                    if raw_hostname@.len() < 32 {
                        raw_hostname@.len() as int
                    } else {
                        32
                    },
                )
            }
        }),
{
    let n = raw_hostname.unicode_len();
    let bad = if n == 0 {
        true
    } else {
        let c = raw_hostname.get_char(0);
        '0' <= c && c <= '9'
    };
    if bad {
        let m = instance.unicode_len();
        let cut = if m < 12 {
            m
        } else {
            12
        };
        let mut out = String::new();
        out.append("rchat-");
        out.append(instance.substring_char(0, cut));
        proof {
            assert(instance@.subrange(0, cut as int) =~= instance@.take(cut as int));
        }
        out
    } else {
        let cut = if n < 32 {
            n
        } else {
            32
        };
        let r = raw_hostname.substring_char(0, cut).to_owned();
        proof {
            assert(raw_hostname@.subrange(0, cut as int) =~= raw_hostname@.take(cut as int));
        }
        r
    }
}

/// The TXT records advertised with the service: the peer id, protocol
/// versions, and the user's alias when set.
pub fn txt_items(peer_id: &str, user_alias: Option<&str>) -> (r: Vec<(String, String)>)
    ensures
        r@.len() == (if user_alias is Some {
            4int
        } else {
            3int
        }),
        r@[0].0@ == "peer_id"@ && r@[0].1@ == peer_id@,
        r@[1].0@ == "version"@ && r@[1].1@ == "1.0.0"@,
        r@[2].0@ == "protocol"@ && r@[2].1@ == "rchat/1.0"@,
        user_alias is Some ==> r@[3].0@ == "alias"@ && r@[3].1@ == user_alias->Some_0@,
{
    let mut out: Vec<(String, String)> = Vec::new();
    out.push(("peer_id".to_owned(), peer_id.to_owned()));
    out.push(("version".to_owned(), "1.0.0".to_owned()));
    out.push(("protocol".to_owned(), "rchat/1.0".to_owned()));
    match user_alias {
        Some(a) => {
            out.push(("alias".to_owned(), a.to_owned()));
        },
        None => {},
    }
    out
}

/// A discovery of ourselves is dropped.
pub fn is_self_discovery(my_peer_id: &str, discovered_peer_id: &str) -> (r: bool)
    ensures
        r == (my_peer_id@ == discovered_peer_id@),
{
    str_eq(my_peer_id, discovered_peer_id)
}

/// An advertised address of all zeroes calls for resolving the host
/// name instead.
pub fn needs_host_resolution(addr: &str) -> (r: bool)
    ensures
        r == (addr@ == "0.0.0.0"@),
{
    proof {
        reveal_strlit("0.0.0.0");
    }
    str_eq(addr, "0.0.0.0")
}

} // verus!
