//! The STUN binding exchange: building an RFC 5389 binding request and
//! parsing the mapped address out of the response. The sockets that
//! carry the packets live outside the crate.

use vstd::prelude::*;

verus! {

/// The message type of a binding response.
pub const STUN_BINDING_RESPONSE: u16 = 0x0101;

/// A public address discovered over STUN.
#[derive(Debug, Clone, Copy)]
pub enum StunAddress {
    V4 { ip: [u8; 4], port: u16 },
    V6 { ip: [u8; 16], port: u16 },
}

/// The outcome of discovery: at most one address per family.
#[derive(Debug, Clone, Copy)]
pub struct StunResult {
    pub ipv6: Option<StunAddress>,
    pub ipv4: Option<StunAddress>,
}

impl StunResult {
    /// The preferred address: the IPv6 one when present.
    pub fn best(&self) -> (r: Option<StunAddress>)
        ensures
            r == (if self.ipv6 is Some {
                self.ipv6
            } else {
                self.ipv4
            }),
    {
        match self.ipv6 {
            Some(a) => Some(a),
            None => self.ipv4,
        }
    }
}

/// Build a binding request: type, zero length, the magic cookie, and the
/// caller's 12 random transaction bytes.
pub fn build_binding_request(txid: &[u8]) -> (r: Vec<u8>)
    requires
        txid@.len() == 12,
    ensures
        r@.len() == 20,
        r@[0] == 0u8 && r@[1] == 1u8 && r@[2] == 0u8 && r@[3] == 0u8,
        r@[4] == 0x21u8 && r@[5] == 0x12u8 && r@[6] == 0xa4u8 && r@[7] == 0x42u8,
        r@.subrange(8, 20) == txid@,
{
    let mut out: Vec<u8> = Vec::new();
    out.push(0u8);
    out.push(1u8);
    out.push(0u8);
    out.push(0u8);
    out.push(0x21u8);
    out.push(0x12u8);
    out.push(0xa4u8);
    out.push(0x42u8);
    crate::json::push_bytes(&mut out, txid);
    proof {
        assert(out@.subrange(8, 20) =~= txid@);
    }
    out
}

/// A big-endian 16-bit field of the response.
pub open spec fn be16(s: Seq<u8>, i: int) -> int {
    s[i] * 256 + s[i + 1]
}

/// Walk the TLV attributes from `off` to `end` for the wanted kind,
/// stopping at the first usable one: its data position and whether it is
/// an IPv4 mapping. A malformed length or a wanted attribute of no known
/// family ends the walk empty-handed.
pub open spec fn scan_spec(s: Seq<u8>, end: int, wanted: int, off: int) -> Option<(int, bool)>
    decreases end - off,
{
    if off + 4 > end {
        None
    } else {
        let alen = be16(s, off + 2);
        if alen > end - off - 4 {
            None
        } else if be16(s, off) == wanted {
            let d = off + 4;
            if alen >= 8 && s[d + 1] == 1 {
                Some((d, true))
            } else if alen >= 20 && s[d + 1] == 2 {
                Some((d, false))
            } else {
                None
            }
        } else {
            let padded = alen / 4 * 4 + (if alen % 4 == 0 {
                0int
            } else {
                4int
            });
            if padded > end - off - 4 {
                None
            } else {
                scan_spec(s, end, wanted, off + 4 + padded)
            }
        }
    }
}

/// The port of a mapped address at data position `d`, unmasked when the
/// attribute is the XOR kind.
pub open spec fn port_at(s: Seq<u8>, d: int, is_xor: bool) -> u16 {
    let p = (s[d + 2] as int * 256 + s[d + 3] as int) as u16;
    if is_xor {
        p ^ 0x2112u16
    } else {
        p
    }
}

/// The IPv4 bytes of a mapped address, unmasked with the magic cookie
/// when the attribute is the XOR kind.
pub open spec fn v4_byte_at(s: Seq<u8>, d: int, is_xor: bool, k: int) -> u8 {
    if is_xor {
        s[d + 4 + k] ^ seq![0x21u8, 0x12u8, 0xa4u8, 0x42u8][k]
    } else {
        s[d + 4 + k]
    }
}

/// The IPv6 bytes of a mapped address, unmasked with cookie plus
/// transaction id (response bytes 4 to 19) when the attribute is the XOR
/// kind.
pub open spec fn v6_byte_at(s: Seq<u8>, d: int, is_xor: bool, k: int) -> u8 {
    if is_xor {
        s[d + 4 + k] ^ s[4 + k]
    } else {
        s[d + 4 + k]
    }
}

/// What the attribute walk hands back, decoded.
pub open spec fn scan_post(
    s: Seq<u8>,
    end: int,
    wanted: int,
    r: Option<StunAddress>,
) -> bool {
    let w = scan_spec(s, end, wanted, 20);
    let is_xor = wanted == 0x0020;
    match r {
        None => w is None,
        Some(a) => w is Some && ({
            let (d, v4) = w->Some_0;
            match a {
                StunAddress::V4 { ip, port } => v4 && port == port_at(s, d, is_xor) && (forall|
                    k: int,
                |
                    0 <= k < 4 ==> #[trigger] ip@[k] == v4_byte_at(s, d, is_xor, k)),
                StunAddress::V6 { ip, port } => !v4 && port == port_at(s, d, is_xor) && (forall|
                    k: int,
                |
                    0 <= k < 16 ==> #[trigger] ip@[k] == v6_byte_at(s, d, is_xor, k)),
            }
        }),
    }
}

/// Parse a binding response: check the type, then walk the attributes
/// twice, honouring `XOR-MAPPED-ADDRESS` over `MAPPED-ADDRESS`, and
/// decode the first usable mapping with the un-XOR rules. Nothing comes
/// back only when the header is not a binding response or neither walk
/// finds a usable mapping.
pub fn parse_binding_response(buf: &[u8], len: usize) -> (r: Option<StunAddress>)
    ensures
        match r {
            Some(a) => {
                &&& len >= 20 && len <= buf@.len()
                &&& be16(buf@, 0) == STUN_BINDING_RESPONSE as int
                &&& ({
                    let end = (if 20 + be16(buf@, 2) < len as int {
                        20 + be16(buf@, 2)
                    } else {
                        len as int
                    });
                    scan_post(buf@, end, 0x0020, r) || (scan_spec(buf@, end, 0x0020, 20) is None
                        && scan_post(buf@, end, 0x0001, r))
                })
            },
            None => len < 20 || buf@.len() < len || be16(buf@, 0) != STUN_BINDING_RESPONSE as int
                || ({
                let end = (if 20 + be16(buf@, 2) < len as int {
                    20 + be16(buf@, 2)
                } else {
                    len as int
                });
                scan_spec(buf@, end, 0x0020, 20) is None && scan_spec(buf@, end, 0x0001, 20)
                    is None
            }),
        },
{
    if len < 20 || buf.len() < len {
        return None;
    }
    let msg_type: u16 = (buf[0] as u16) * 256 + (buf[1] as u16);
    if msg_type != STUN_BINDING_RESPONSE {
        return None;
    }
    let msg_len: usize = (buf[2] as usize) * 256 + (buf[3] as usize);
    let end = if 20 + msg_len < len {
        20 + msg_len
    } else {
        len
    };
    match scan_attributes(buf, end, 0x0020u16) {
        Some(a) => Some(a),
        None => scan_attributes(buf, end, 0x0001u16),
    }
}

/// Walk the TLV attributes up to `end`, decoding the first of the wanted
/// kind exactly as `scan_spec` finds it.
#[verifier::rlimit(100)]
fn scan_attributes(buf: &[u8], end: usize, wanted: u16) -> (r: Option<StunAddress>)
    requires
        20 <= end <= buf@.len(),
        wanted == 0x0020 || wanted == 0x0001,
    ensures
        scan_post(buf@, end as int, wanted as int, r),
{
    let is_xor = wanted == 0x0020u16;
    let mut offset: usize = 20;
    while offset <= end - 4
        invariant
            20 <= end <= buf@.len(),
            20 <= offset <= end,
            is_xor == (wanted == 0x0020u16),
            wanted == 0x0020 || wanted == 0x0001,
            scan_spec(buf@, end as int, wanted as int, 20) == scan_spec(
                buf@,
                end as int,
                wanted as int,
                offset as int,
            ),
        decreases end - offset,
    {
        let attr_type: u16 = (buf[offset] as u16) * 256 + (buf[offset + 1] as u16);
        let attr_len: usize = (buf[offset + 2] as usize) * 256 + (buf[offset + 3] as usize);
        if attr_len > end - offset - 4 {
            return None;
        }
        let data_start = offset + 4;
        if attr_type == wanted {
            if attr_len >= 8 && buf[data_start + 1] == 1u8 {
                // IPv4
                let mut port: u16 = (buf[data_start + 2] as u16) * 256 + (buf[data_start
                    + 3] as u16);
                let mut ip: [u8; 4] = [0u8; 4];
                let mut k: usize = 0;
                while k < 4
                    invariant
                        data_start + 8 <= end <= buf@.len(),
                        k <= 4,
                        is_xor == (wanted == 0x0020u16),
                        forall|t: int|
                            0 <= t < k ==> #[trigger] ip@[t] == v4_byte_at(
                                buf@,
                                data_start as int,
                                is_xor,
                                t,
                            ),
                    decreases 4 - k,
                {
                    let b = buf[data_start + 4 + k];
                    ip[k] = if is_xor {
                        let mask: u8 = if k == 0 {
                            0x21
                        } else if k == 1 {
                            0x12
                        } else if k == 2 {
                            0xa4
                        } else {
                            0x42
                        };
                        b ^ mask
                    } else {
                        b
                    };
                    k += 1;
                }
                if is_xor {
                    port = port ^ 0x2112u16;
                }
                proof {
                    assert(port == port_at(buf@, data_start as int, is_xor));
                }
                return Some(StunAddress::V4 { ip, port });
            }
            if attr_len >= 20 && buf[data_start + 1] == 2u8 {
                // IPv6
                let mut port: u16 = (buf[data_start + 2] as u16) * 256 + (buf[data_start
                    + 3] as u16);
                let mut ip: [u8; 16] = [0u8; 16];
                let mut k: usize = 0;
                while k < 16
                    invariant
                        data_start + 20 <= end <= buf@.len(),
                        k <= 16,
                        is_xor == (wanted == 0x0020u16),
                        forall|t: int|
                            0 <= t < k ==> #[trigger] ip@[t] == v6_byte_at(
                                buf@,
                                data_start as int,
                                is_xor,
                                t,
                            ),
                    decreases 16 - k,
                {
                    let b = buf[data_start + 4 + k];
                    ip[k] = if is_xor {
                        b ^ buf[4 + k]
                    } else {
                        b
                    };
                    k += 1;
                }
                if is_xor {
                    port = port ^ 0x2112u16;
                }
                proof {
                    assert(port == port_at(buf@, data_start as int, is_xor));
                }
                return Some(StunAddress::V6 { ip, port });
            }
            return None;
        }
        let padded = attr_len / 4 * 4 + (if attr_len % 4 == 0 {
            0
        } else {
            4
        });
        if padded > end - offset - 4 {
            return None;
        }
        offset = offset + 4 + padded;
    }
    None
}

} // verus!
